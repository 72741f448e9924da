use std::collections::HashMap;
use std::marker::PhantomData;
use vstd::arithmetic::div_mod::{lemma_fundamental_div_mod, lemma_mod_multiples_basic, lemma_small_mod};
use vstd::arithmetic::power2::{lemma_pow2_adds, lemma_pow2_pos, lemma_pow2_unfold, pow2};
use vstd::prelude::*;

verus! {

/// An unsigned integer type with a least and a greatest value.
pub trait Bounded: Sized {
    /// The number that a value of the type stands for.
    spec fn num(self) -> int;

    /// How many values the type has: one more than the greatest.
    spec fn modulus() -> int;

    fn min_value() -> (r: Self)
        ensures
            r.num() == 0,
    ;

    fn max_value() -> (r: Self)
        ensures
            r.num() == Self::modulus() - 1,
    ;
}

/// A fixed-width unsigned integer, read as a string of bits from the most
/// significant one down.
pub trait FixedUnsigned: Bounded + Copy + core::hash::Hash + Eq {
    /// The number of bits.
    spec fn bits() -> nat;

    /// The value of the most significant bit.
    spec fn half() -> int;

    proof fn lemma_range(x: Self)
        ensures
            0 <= x.num() < Self::modulus(),
            Self::bits() >= 1,
            Self::modulus() == pow2(Self::bits()),
            Self::half() == pow2((Self::bits() - 1) as nat),
            Self::modulus() == 2 * Self::half(),
    ;

    /// The value that stands for `n`, for `0 <= n < modulus()`.
    spec fn from_num(n: int) -> Self;

    proof fn lemma_from_num(x: Self, n: int)
        ensures
            x == Self::from_num(x.num()),
            0 <= n < Self::modulus() ==> Self::from_num(n).num() == n,
    ;

    /// Keys of the type hash and compare as their values.
    proof fn lemma_key_model()
        ensures
            vstd::std_specs::hash::obeys_key_model::<Self>(),
    ;

    fn zero() -> (r: Self)
        ensures
            r.num() == 0,
    ;

    fn one() -> (r: Self)
        ensures
            r.num() == 1,
    ;

    /// The most significant bit alone.
    fn high_bit() -> (r: Self)
        ensures
            r.num() == Self::half(),
    ;

    fn less_eq(self, other: Self) -> (r: bool)
        ensures
            r == (self.num() <= other.num()),
    ;

    fn same(self, other: Self) -> (r: bool)
        ensures
            r == (self.num() == other.num()),
    ;

    fn checked_add(self, other: Self) -> (r: Option<Self>)
        ensures
            match r {
                Some(s) => s.num() == self.num() + other.num(),
                None => self.num() + other.num() >= Self::modulus(),
            },
    ;

    fn checked_sub(self, other: Self) -> (r: Option<Self>)
        ensures
            match r {
                Some(s) => s.num() == self.num() - other.num(),
                None => self.num() < other.num(),
            },
    ;

    /// Shifts left by one bit; the top bit falls off.
    fn shift_up(self) -> (r: Self)
        ensures
            r.num() == (if self.num() >= Self::half() {
                2 * self.num() - Self::modulus()
            } else {
                2 * self.num()
            }),
    ;

    /// Shifts left by one bit and sets the lowest bit; the top bit falls off.
    fn shift_up_one(self) -> (r: Self)
        ensures
            r.num() == (if self.num() >= Self::half() {
                2 * self.num() + 1 - Self::modulus()
            } else {
                2 * self.num() + 1
            }),
    ;

    /// Shifts right by one bit and sets the top bit to `head`.
    fn shift_down(self, head: bool) -> (r: Self)
        ensures
            r.num() == (if head { Self::half() } else { 0 }) + self.num() / 2,
    ;
}

impl Bounded for u8 {
    open spec fn num(self) -> int {
        self as int
    }

    open spec fn modulus() -> int {
        u8::MAX as int + 1
    }

    fn min_value() -> (r: u8) {
        0
    }

    fn max_value() -> (r: u8) {
        u8::MAX
    }
}

impl FixedUnsigned for u8 {
    open spec fn bits() -> nat {
        u8::BITS as nat
    }

    open spec fn half() -> int {
        u8::MAX as int / 2 + 1
    }

    open spec fn from_num(n: int) -> u8 {
        n as u8
    }

    proof fn lemma_from_num(x: u8, n: int) {
    }

    proof fn lemma_key_model() {
        broadcast use vstd::std_specs::hash::axiom_u8_obeys_hash_table_key_model;

    }

    proof fn lemma_range(x: u8) {
        vstd::layout::unsigned_int_max_values();
        lemma_pow2_unfold(u8::BITS as nat);
    }

    fn zero() -> (r: u8) {
        0
    }

    fn one() -> (r: u8) {
        1
    }

    fn high_bit() -> (r: u8) {
        u8::MAX / 2 + 1
    }

    fn less_eq(self, other: u8) -> (r: bool) {
        self <= other
    }

    fn same(self, other: u8) -> (r: bool) {
        self == other
    }

    fn checked_add(self, other: u8) -> (r: Option<u8>) {
        u8::checked_add(self, other)
    }

    fn checked_sub(self, other: u8) -> (r: Option<u8>) {
        u8::checked_sub(self, other)
    }

    fn shift_up(self) -> (r: u8) {
        if self > u8::MAX / 2 {
            (self - (u8::MAX / 2 + 1)) * 2
        } else {
            self * 2
        }
    }

    fn shift_up_one(self) -> (r: u8) {
        if self > u8::MAX / 2 {
            (self - (u8::MAX / 2 + 1)) * 2 + 1
        } else {
            self * 2 + 1
        }
    }

    fn shift_down(self, head: bool) -> (r: u8) {
        if head {
            u8::MAX / 2 + 1 + self / 2
        } else {
            self / 2
        }
    }
}

impl Bounded for u16 {
    open spec fn num(self) -> int {
        self as int
    }

    open spec fn modulus() -> int {
        u16::MAX as int + 1
    }

    fn min_value() -> (r: u16) {
        0
    }

    fn max_value() -> (r: u16) {
        u16::MAX
    }
}

impl FixedUnsigned for u16 {
    open spec fn bits() -> nat {
        u16::BITS as nat
    }

    open spec fn half() -> int {
        u16::MAX as int / 2 + 1
    }

    open spec fn from_num(n: int) -> u16 {
        n as u16
    }

    proof fn lemma_from_num(x: u16, n: int) {
    }

    proof fn lemma_key_model() {
        broadcast use vstd::std_specs::hash::axiom_u16_obeys_hash_table_key_model;

    }

    proof fn lemma_range(x: u16) {
        vstd::layout::unsigned_int_max_values();
        lemma_pow2_unfold(u16::BITS as nat);
    }

    fn zero() -> (r: u16) {
        0
    }

    fn one() -> (r: u16) {
        1
    }

    fn high_bit() -> (r: u16) {
        u16::MAX / 2 + 1
    }

    fn less_eq(self, other: u16) -> (r: bool) {
        self <= other
    }

    fn same(self, other: u16) -> (r: bool) {
        self == other
    }

    fn checked_add(self, other: u16) -> (r: Option<u16>) {
        u16::checked_add(self, other)
    }

    fn checked_sub(self, other: u16) -> (r: Option<u16>) {
        u16::checked_sub(self, other)
    }

    fn shift_up(self) -> (r: u16) {
        if self > u16::MAX / 2 {
            (self - (u16::MAX / 2 + 1)) * 2
        } else {
            self * 2
        }
    }

    fn shift_up_one(self) -> (r: u16) {
        if self > u16::MAX / 2 {
            (self - (u16::MAX / 2 + 1)) * 2 + 1
        } else {
            self * 2 + 1
        }
    }

    fn shift_down(self, head: bool) -> (r: u16) {
        if head {
            u16::MAX / 2 + 1 + self / 2
        } else {
            self / 2
        }
    }
}

impl Bounded for u32 {
    open spec fn num(self) -> int {
        self as int
    }

    open spec fn modulus() -> int {
        u32::MAX as int + 1
    }

    fn min_value() -> (r: u32) {
        0
    }

    fn max_value() -> (r: u32) {
        u32::MAX
    }
}

impl FixedUnsigned for u32 {
    open spec fn bits() -> nat {
        u32::BITS as nat
    }

    open spec fn half() -> int {
        u32::MAX as int / 2 + 1
    }

    open spec fn from_num(n: int) -> u32 {
        n as u32
    }

    proof fn lemma_from_num(x: u32, n: int) {
    }

    proof fn lemma_key_model() {
        broadcast use vstd::std_specs::hash::axiom_u32_obeys_hash_table_key_model;

    }

    proof fn lemma_range(x: u32) {
        vstd::layout::unsigned_int_max_values();
        lemma_pow2_unfold(u32::BITS as nat);
    }

    fn zero() -> (r: u32) {
        0
    }

    fn one() -> (r: u32) {
        1
    }

    fn high_bit() -> (r: u32) {
        u32::MAX / 2 + 1
    }

    fn less_eq(self, other: u32) -> (r: bool) {
        self <= other
    }

    fn same(self, other: u32) -> (r: bool) {
        self == other
    }

    fn checked_add(self, other: u32) -> (r: Option<u32>) {
        u32::checked_add(self, other)
    }

    fn checked_sub(self, other: u32) -> (r: Option<u32>) {
        u32::checked_sub(self, other)
    }

    fn shift_up(self) -> (r: u32) {
        if self > u32::MAX / 2 {
            (self - (u32::MAX / 2 + 1)) * 2
        } else {
            self * 2
        }
    }

    fn shift_up_one(self) -> (r: u32) {
        if self > u32::MAX / 2 {
            (self - (u32::MAX / 2 + 1)) * 2 + 1
        } else {
            self * 2 + 1
        }
    }

    fn shift_down(self, head: bool) -> (r: u32) {
        if head {
            u32::MAX / 2 + 1 + self / 2
        } else {
            self / 2
        }
    }
}

impl Bounded for u64 {
    open spec fn num(self) -> int {
        self as int
    }

    open spec fn modulus() -> int {
        u64::MAX as int + 1
    }

    fn min_value() -> (r: u64) {
        0
    }

    fn max_value() -> (r: u64) {
        u64::MAX
    }
}

impl FixedUnsigned for u64 {
    open spec fn bits() -> nat {
        u64::BITS as nat
    }

    open spec fn half() -> int {
        u64::MAX as int / 2 + 1
    }

    open spec fn from_num(n: int) -> u64 {
        n as u64
    }

    proof fn lemma_from_num(x: u64, n: int) {
    }

    proof fn lemma_key_model() {
        broadcast use vstd::std_specs::hash::axiom_u64_obeys_hash_table_key_model;

    }

    proof fn lemma_range(x: u64) {
        vstd::layout::unsigned_int_max_values();
        lemma_pow2_unfold(u64::BITS as nat);
    }

    fn zero() -> (r: u64) {
        0
    }

    fn one() -> (r: u64) {
        1
    }

    fn high_bit() -> (r: u64) {
        u64::MAX / 2 + 1
    }

    fn less_eq(self, other: u64) -> (r: bool) {
        self <= other
    }

    fn same(self, other: u64) -> (r: bool) {
        self == other
    }

    fn checked_add(self, other: u64) -> (r: Option<u64>) {
        u64::checked_add(self, other)
    }

    fn checked_sub(self, other: u64) -> (r: Option<u64>) {
        u64::checked_sub(self, other)
    }

    fn shift_up(self) -> (r: u64) {
        if self > u64::MAX / 2 {
            (self - (u64::MAX / 2 + 1)) * 2
        } else {
            self * 2
        }
    }

    fn shift_up_one(self) -> (r: u64) {
        if self > u64::MAX / 2 {
            (self - (u64::MAX / 2 + 1)) * 2 + 1
        } else {
            self * 2 + 1
        }
    }

    fn shift_down(self, head: bool) -> (r: u64) {
        if head {
            u64::MAX / 2 + 1 + self / 2
        } else {
            self / 2
        }
    }
}

impl Bounded for usize {
    open spec fn num(self) -> int {
        self as int
    }

    open spec fn modulus() -> int {
        usize::MAX as int + 1
    }

    fn min_value() -> (r: usize) {
        0
    }

    fn max_value() -> (r: usize) {
        usize::MAX
    }
}

impl FixedUnsigned for usize {
    open spec fn bits() -> nat {
        usize::BITS as nat
    }

    open spec fn half() -> int {
        usize::MAX as int / 2 + 1
    }

    open spec fn from_num(n: int) -> usize {
        n as usize
    }

    proof fn lemma_from_num(x: usize, n: int) {
    }

    proof fn lemma_key_model() {
        broadcast use vstd::std_specs::hash::axiom_usize_obeys_hash_table_key_model;

    }

    proof fn lemma_range(x: usize) {
        vstd::layout::unsigned_int_max_values();
        lemma_pow2_unfold(usize::BITS as nat);
    }

    fn zero() -> (r: usize) {
        0
    }

    fn one() -> (r: usize) {
        1
    }

    fn high_bit() -> (r: usize) {
        usize::MAX / 2 + 1
    }

    fn less_eq(self, other: usize) -> (r: bool) {
        self <= other
    }

    fn same(self, other: usize) -> (r: bool) {
        self == other
    }

    fn checked_add(self, other: usize) -> (r: Option<usize>) {
        usize::checked_add(self, other)
    }

    fn checked_sub(self, other: usize) -> (r: Option<usize>) {
        usize::checked_sub(self, other)
    }

    fn shift_up(self) -> (r: usize) {
        if self > usize::MAX / 2 {
            (self - (usize::MAX / 2 + 1)) * 2
        } else {
            self * 2
        }
    }

    fn shift_up_one(self) -> (r: usize) {
        if self > usize::MAX / 2 {
            (self - (usize::MAX / 2 + 1)) * 2 + 1
        } else {
            self * 2 + 1
        }
    }

    fn shift_down(self, head: bool) -> (r: usize) {
        if head {
            usize::MAX / 2 + 1 + self / 2
        } else {
            self / 2
        }
    }
}

/// The most significant bit of `T` alone.
fn high_bit<T: FixedUnsigned>() -> (r: T)
    ensures
        r.num() == T::half(),
{
    T::high_bit()
}

/// Splits `x` into its top bit and the remaining bits moved up by one place,
/// with a zero shifted in at the bottom.
fn view_round_down<T: FixedUnsigned>(x: T) -> (r: (bool, T))
    ensures
        r.0 == (x.num() >= T::half()),
        r.1.num() == (if x.num() >= T::half() { 2 * x.num() - T::modulus() } else { 2 * x.num() }),
{
    proof {
        T::lemma_range(x);
    }
    let head = high_bit::<T>().less_eq(x);
    (head, x.shift_up())
}

/// Like `view_round_down`, with a one shifted in at the bottom.
fn view_round_up<T: FixedUnsigned>(x: T) -> (r: (bool, T))
    ensures
        r.0 == (x.num() >= T::half()),
        r.1.num() == (if x.num() >= T::half() {
            2 * x.num() + 1 - T::modulus()
        } else {
            2 * x.num() + 1
        }),
{
    proof {
        T::lemma_range(x);
    }
    let head = high_bit::<T>().less_eq(x);
    (head, x.shift_up_one())
}

/// Undoes `view_round_down`: puts `head` back on top of `tail` shifted down.
fn unshift<T: FixedUnsigned>(head: bool, tail: T) -> (r: T)
    ensures
        r.num() == (if head { T::half() } else { 0 }) + tail.num() / 2,
{
    tail.shift_down(head)
}

/// An inclusive range `[front, back]` of keys.
#[derive(Clone, Copy, PartialEq, Eq, Debug)]
pub struct Interval<T> {
    pub front: T,
    pub back: T,
}

impl<T: FixedUnsigned> Interval<T> {
    /// The first key, as a number.
    pub open spec fn lo(self) -> int {
        self.front.num()
    }

    /// The last key, as a number.
    pub open spec fn hi(self) -> int {
        self.back.num()
    }

    /// A well-formed interval is not empty.
    pub open spec fn wf(self) -> bool {
        self.lo() <= self.hi()
    }

    pub open spec fn has(self, k: int) -> bool {
        self.lo() <= k <= self.hi()
    }

    pub fn front(self) -> (r: T)
        ensures
            r == self.front,
    {
        self.front
    }

    pub fn back(self) -> (r: T)
        ensures
            r == self.back,
    {
        self.back
    }

    /// Whether every key of `self` lies in `other`.
    pub fn subset(self, other: Self) -> (r: bool)
        ensures
            r == (other.lo() <= self.lo() && self.hi() <= other.hi()),
    {
        other.front.less_eq(self.front) && self.back.less_eq(other.back)
    }

    /// The number of keys, unless it does not fit in `T`.
    pub fn len(self) -> (r: Option<T>)
        requires
            self.wf(),
        ensures
            match r {
                Some(n) => n.num() == self.hi() - self.lo() + 1,
                None => self.hi() - self.lo() + 1 == T::modulus(),
            },
    {
        proof {
            T::lemma_range(self.front);
            T::lemma_range(self.back);
        }
        match self.back.checked_sub(self.front) {
            Some(d) => d.checked_add(T::one()),
            None => None,
        }
    }

    pub fn contains(self, x: T) -> (r: bool)
        ensures
            r == self.has(x.num()),
    {
        self.front.less_eq(x) && x.less_eq(self.back)
    }

    /// The keys of the interval in increasing order.
    pub fn iter(self) -> (r: IntervalIter<T>)
        requires
            self.wf(),
        ensures
            r.wf(),
            r.rest_lo() == self.lo(),
            r.rest_end() == self.hi() + 1,
    {
        proof {
            T::lemma_range(self.back);
        }
        match self.back.checked_add(T::one()) {
            None => IntervalIter::Unbounded(Some(self.front)),
            Some(end) => IntervalIter::Bounded(self.front, end),
        }
    }
}

/// The interval `[front, back]`.
pub fn interval<T: FixedUnsigned>(front: T, back: T) -> (r: Interval<T>)
    ensures
        r.front == front,
        r.back == back,
{
    Interval { front, back }
}

/// Every key of `T`.
pub fn everything<T: FixedUnsigned>() -> (r: IntervalIter<T>)
    ensures
        r.wf(),
        r.rest_lo() == 0,
        r.rest_end() == T::modulus(),
{
    let lo = T::min_value();
    let hi = T::max_value();
    proof {
        T::lemma_range(lo);
    }
    interval(lo, hi).iter()
}

/// Walks the keys of an interval: `Bounded(next, end)` has `end` past the
/// last key; `Unbounded` runs to the greatest key, and holds `None` once
/// that has been handed out.
#[derive(PartialEq, Eq, Debug)]
pub enum IntervalIter<T> {
    Bounded(T, T),
    Unbounded(Option<T>),
}

impl<T: FixedUnsigned> IntervalIter<T> {
    /// The next key to come.
    pub open spec fn rest_lo(self) -> int {
        match self {
            IntervalIter::Bounded(s, _) => s.num(),
            IntervalIter::Unbounded(Some(h)) => h.num(),
            IntervalIter::Unbounded(None) => T::modulus(),
        }
    }

    /// One past the last key to come.
    pub open spec fn rest_end(self) -> int {
        match self {
            IntervalIter::Bounded(_, e) => e.num(),
            IntervalIter::Unbounded(_) => T::modulus(),
        }
    }

    pub open spec fn wf(self) -> bool {
        self.rest_lo() <= self.rest_end()
    }

    /// Hands out the next key, or `None` when none is left.
    pub fn next(&mut self) -> (r: Option<T>)
        requires
            old(self).wf(),
        ensures
            final(self).wf(),
            final(self).rest_end() == old(self).rest_end(),
            old(self).rest_lo() < old(self).rest_end() ==> {
                &&& r.is_some()
                &&& r.unwrap().num() == old(self).rest_lo()
                &&& final(self).rest_lo() == old(self).rest_lo() + 1
            },
            old(self).rest_lo() >= old(self).rest_end() ==> r.is_none() && final(self).rest_lo()
                == old(self).rest_lo(),
    {
        match self {
            IntervalIter::Bounded(start, end) => {
                if start.same(*end) {
                    None
                } else {
                    let ret = *start;
                    proof {
                        T::lemma_range(*end);
                    }
                    match start.checked_add(T::one()) {
                        Some(n) => {
                            *start = n;
                        },
                        None => {},
                    }
                    Some(ret)
                }
            },
            IntervalIter::Unbounded(head) => {
                let ret = *head;
                match *head {
                    None => {},
                    Some(head_value) => {
                        proof {
                            T::lemma_range(head_value);
                        }
                        *head = head_value.checked_add(T::one());
                    },
                }
                ret
            },
        }
    }
}

/// Splits `range` between the two halves of the key space. Each part is given
/// as the keys of that half moved up by one bit, with every lower bit of the
/// part's ends made to reach the end of their block.
pub fn split<T: FixedUnsigned>(range: Interval<T>) -> (r: (Option<Interval<T>>, Option<Interval<T>>))
    requires
        range.wf(),
    ensures
        match r.0 {
            Some(l) => range.lo() < T::half() && l.lo() == 2 * range.lo() && l.hi() == (if range.hi()
                >= T::half() {
                T::modulus() - 1
            } else {
                2 * range.hi() + 1
            }),
            None => range.lo() >= T::half(),
        },
        match r.1 {
            Some(h) => range.hi() >= T::half() && h.lo() == (if range.lo() >= T::half() {
                2 * range.lo() - T::modulus()
            } else {
                0
            }) && h.hi() == 2 * range.hi() + 1 - T::modulus(),
            None => range.hi() < T::half(),
        },
{
    proof {
        T::lemma_range(range.front);
        T::lemma_range(range.back);
    }
    let (front_head, front_tail) = view_round_down(range.front);
    let (back_head, back_tail) = view_round_up(range.back);
    if front_head {
        (None, Some(interval(front_tail, back_tail)))
    } else if back_head {
        (Some(interval(front_tail, T::max_value())), Some(interval(T::min_value(), back_tail)))
    } else {
        (Some(interval(front_tail, back_tail)), None)
    }
}

/// A value type whose `==` can be decided at run time.
pub trait ValueEq: Copy {
    fn same_value(&self, other: &Self) -> (r: bool)
        ensures
            r == (*self == *other),
    ;
}

impl ValueEq for u8 {
    fn same_value(&self, other: &u8) -> (r: bool) {
        *self == *other
    }
}

impl ValueEq for u16 {
    fn same_value(&self, other: &u16) -> (r: bool) {
        *self == *other
    }
}

impl ValueEq for u32 {
    fn same_value(&self, other: &u32) -> (r: bool) {
        *self == *other
    }
}

impl ValueEq for u64 {
    fn same_value(&self, other: &u64) -> (r: bool) {
        *self == *other
    }
}

impl ValueEq for usize {
    fn same_value(&self, other: &usize) -> (r: bool) {
        *self == *other
    }
}

fn same_option<V: ValueEq>(a: &Option<V>, b: &Option<V>) -> (r: bool)
    ensures
        r == (*a == *b),
{
    match (a, b) {
        (Some(x), Some(y)) => x.same_value(y),
        (None, None) => true,
        _ => false,
    }
}

proof fn lemma_mult_of(q: int, m: int)
    requires
        m > 0,
    ensures
        (m * q) % m == 0,
{
    lemma_mod_multiples_basic(q, m);
    vstd::arithmetic::mul::lemma_mul_is_commutative(m, q);
}

proof fn lemma_sum_aligned(a: int, b: int, m: int)
    requires
        m > 0,
        a % m == 0,
        b % m == 0,
    ensures
        (a + b) % m == 0,
        (a - b) % m == 0,
{
    lemma_fundamental_div_mod(a, m);
    lemma_fundamental_div_mod(b, m);
    let qa = a / m;
    let qb = b / m;
    assert(a + b == m * (qa + qb)) by (nonlinear_arith)
        requires
            a == m * qa,
            b == m * qb,
    ;
    assert(a - b == m * (qa - qb)) by (nonlinear_arith)
        requires
            a == m * qa,
            b == m * qb,
    ;
    lemma_mult_of(qa + qb, m);
    lemma_mult_of(qa - qb, m);
}

proof fn lemma_double_aligned(x: int, g: int)
    requires
        g > 0,
        x % g == 0,
    ensures
        (2 * x) % (2 * g) == 0,
{
    lemma_fundamental_div_mod(x, g);
    let q = x / g;
    assert(2 * x == (2 * g) * q) by (nonlinear_arith)
        requires
            x == g * q,
    ;
    lemma_mult_of(q, 2 * g);
}

proof fn lemma_half_aligned(x: int, g: int)
    requires
        g > 0,
        x % (2 * g) == 0,
    ensures
        x % 2 == 0,
        (x / 2) % g == 0,
{
    lemma_fundamental_div_mod(x, 2 * g);
    let q = x / (2 * g);
    assert(x == 2 * (g * q)) by (nonlinear_arith)
        requires
            x == (2 * g) * q,
    ;
    lemma_mult_of(q, g);
}

proof fn lemma_below(x: int, n: int, m: int)
    requires
        m > 0,
        0 <= x < n,
        x % m == 0,
        n % m == 0,
    ensures
        x <= n - m,
{
    lemma_fundamental_div_mod(x, m);
    lemma_fundamental_div_mod(n, m);
    let qx = x / m;
    let qn = n / m;
    assert(x <= n - m) by (nonlinear_arith)
        requires
            x == m * qx,
            n == m * qn,
            x < n,
            m > 0,
    ;
}

proof fn lemma_pos_aligned(x: int, m: int)
    requires
        m > 0,
        x > 0,
        x % m == 0,
    ensures
        x >= m,
{
    lemma_fundamental_div_mod(x, m);
    let q = x / m;
    assert(x >= m) by (nonlinear_arith)
        requires
            x == m * q,
            x > 0,
            m > 0,
    ;
}

proof fn lemma_zero_aligned(x: int, m: int)
    requires
        0 <= x < m,
        x % m == 0,
    ensures
        x == 0,
{
    lemma_small_mod(x as nat, m as nat);
}

/// The powers of two that the levels of the trie work with: level `i`
/// stands for blocks of `pow2(i)` keys.
proof fn lemma_levels<K: FixedUnsigned>(i: nat)
    requires
        i <= K::bits(),
    ensures
        pow2(i) > 0,
        K::modulus() % (pow2(i) as int) == 0,
        i < K::bits() ==> {
            &&& K::half() % (pow2(i) as int) == 0
            &&& K::modulus() % (pow2(i + 1) as int) == 0
            &&& pow2(i + 1) == 2 * pow2(i)
        },
{
    K::lemma_range(vstd::pervasive::arbitrary());
    lemma_pow2_pos(i);
    lemma_pow2_adds(i, (K::bits() - i) as nat);
    lemma_mult_of(pow2((K::bits() - i) as nat) as int, pow2(i) as int);
    if i < K::bits() {
        lemma_pow2_adds(i, (K::bits() - 1 - i) as nat);
        lemma_mult_of(pow2((K::bits() - 1 - i) as nat) as int, pow2(i) as int);
        lemma_pow2_adds(i + 1, (K::bits() - 1 - i) as nat);
        lemma_pow2_pos(i + 1);
        lemma_mult_of(pow2((K::bits() - 1 - i) as nat) as int, pow2(i + 1) as int);
        lemma_pow2_unfold(i + 1);
    }
}

/// A map from every key of `K` to an optional `V`, held as a binary trie on
/// the bits of the key, most significant first. `Empty` and `Leaf` give one
/// answer for their whole range of keys; `Node` splits its range in halves.
pub enum TreeIntervalMap<K, V> {
    Node(Box<(TreeIntervalMap<K, V>, TreeIntervalMap<K, V>)>),
    Empty,
    Leaf(V, PhantomData<K>),
}

impl<K: FixedUnsigned, V: ValueEq> TreeIntervalMap<K, V> {
    /// The value at key `k`. Below the root a subtree is asked with the key
    /// moved up by the bits that the path to it has used.
    pub open spec fn at_key(self, k: int) -> Option<V>
        decreases self,
    {
        match self {
            TreeIntervalMap::Node(b) => if k >= K::half() {
                b.1.at_key(2 * k - K::modulus())
            } else {
                b.0.at_key(2 * k)
            },
            TreeIntervalMap::Empty => None,
            TreeIntervalMap::Leaf(v, _) => Some(v),
        }
    }

    /// No path of the trie has more than `r` nodes.
    pub open spec fn wf_depth(self, r: nat) -> bool
        decreases self,
    {
        match self {
            TreeIntervalMap::Node(b) => r >= 1 && b.0.wf_depth((r - 1) as nat) && b.1.wf_depth(
                (r - 1) as nat,
            ),
            _ => true,
        }
    }

    /// A trie is well formed when no path is longer than the key has bits.
    pub open spec fn well_formed(self) -> bool {
        self.wf_depth(K::bits())
    }

    /// The map that sends every key to `None`.
    pub fn new() -> (r: Self)
        ensures
            r.well_formed(),
            forall|k: int| r.at_key(k) == None::<V>,
    {
        TreeIntervalMap::Empty
    }

    fn get_rec(&self, key: K) -> (r: Option<V>)
        ensures
            r == self.at_key(key.num()),
        decreases self,
    {
        match self {
            TreeIntervalMap::Node(b) => {
                let (head, tail) = view_round_down(key);
                if head {
                    b.1.get_rec(tail)
                } else {
                    b.0.get_rec(tail)
                }
            },
            TreeIntervalMap::Leaf(y, _) => Some(*y),
            TreeIntervalMap::Empty => None,
        }
    }
}

impl<K: FixedUnsigned, V: ValueEq> TreeIntervalMap<K, V> {
    /// The run of equal values around `key`, at level `i` of the trie. Its
    /// ends lie on block boundaries of the level, and it cannot be widened by
    /// a block on either side.
    fn get_interval_rec(&self, key: K, Ghost(i): Ghost<nat>) -> (r: (Interval<K>, Option<V>))
        requires
            i <= K::bits(),
            self.wf_depth((K::bits() - i) as nat),
        ensures
            r.0.lo() <= key.num() <= r.0.hi(),
            r.0.lo() % (pow2(i) as int) == 0,
            (r.0.hi() + 1) % (pow2(i) as int) == 0,
            forall|j: int| r.0.lo() <= j <= r.0.hi() ==> #[trigger] self.at_key(j) == r.1,
            r.0.lo() > 0 ==> self.at_key(r.0.lo() - pow2(i)) != r.1,
            r.0.hi() + 1 < K::modulus() ==> self.at_key(r.0.hi() + 1) != r.1,
        decreases self,
    {
        proof {
            K::lemma_range(key);
            lemma_levels::<K>(i);
        }
        match self {
            TreeIntervalMap::Node(b) => {
                let ghost g = pow2(i) as int;
                let ghost m = K::modulus();
                let ghost h = K::half();
                let (head, tail) = view_round_down(key);
                if head {
                    let (rint, rval) = b.1.get_interval_rec(tail, Ghost(i + 1));
                    proof {
                        K::lemma_range(rint.front);
                        K::lemma_range(rint.back);
                        lemma_half_aligned(rint.lo(), g);
                        lemma_half_aligned(rint.hi() + 1, g);
                        lemma_sum_aligned(h, rint.lo() / 2, g);
                        lemma_sum_aligned(h, (rint.hi() + 1) / 2, g);
                    }
                    if rint.front.same(K::min_value()) {
                        let (lint, lval) = b.0.get_interval_rec(K::max_value(), Ghost(i + 1));
                        proof {
                            K::lemma_range(lint.front);
                            lemma_half_aligned(lint.lo(), g);
                            lemma_below(lint.lo(), m, 2 * g);
                        }
                        if same_option(&lval, &rval) {
                            let r = (interval(unshift(false, lint.front), unshift(true, rint.back)), rval);
                            proof {
                                assert forall|j: int| r.0.lo() <= j <= r.0.hi() implies #[trigger] self.at_key(j) == r.1 by {
                                    if j >= h {
                                        assert(b.1.at_key(2 * j - m) == rval);
                                    } else {
                                        assert(b.0.at_key(2 * j) == lval);
                                    }
                                }
                                if r.0.lo() > 0 {
                                    assert(self.at_key(r.0.lo() - g) == b.0.at_key(lint.lo() - 2 * g));
                                }
                                if r.0.hi() + 1 < m {
                                    assert(self.at_key(r.0.hi() + 1) == b.1.at_key(rint.hi() + 1));
                                }
                            }
                            return r;
                        }
                        proof {
                            assert(self.at_key(h - g) == b.0.at_key(m - 2 * g));
                        }
                    }
                    let r = (interval(unshift(true, rint.front), unshift(true, rint.back)), rval);
                    proof {
                        assert forall|j: int| r.0.lo() <= j <= r.0.hi() implies #[trigger] self.at_key(j) == r.1 by {
                            assert(b.1.at_key(2 * j - m) == rval);
                        }
                        if r.0.lo() > h {
                            lemma_pos_aligned(rint.lo(), 2 * g);
                            assert(self.at_key(r.0.lo() - g) == b.1.at_key(rint.lo() - 2 * g));
                        }
                        if r.0.hi() + 1 < m {
                            assert(self.at_key(r.0.hi() + 1) == b.1.at_key(rint.hi() + 1));
                        }
                    }
                    r
                } else {
                    let (lint, lval) = b.0.get_interval_rec(tail, Ghost(i + 1));
                    proof {
                        K::lemma_range(lint.front);
                        K::lemma_range(lint.back);
                        lemma_half_aligned(lint.lo(), g);
                        lemma_half_aligned(lint.hi() + 1, g);
                    }
                    if lint.back.same(K::max_value()) {
                        let (rint, rval) = b.1.get_interval_rec(K::min_value(), Ghost(i + 1));
                        proof {
                            K::lemma_range(rint.back);
                            lemma_half_aligned(rint.hi() + 1, g);
                            lemma_sum_aligned(h, (rint.hi() + 1) / 2, g);
                        }
                        if same_option(&lval, &rval) {
                            let r = (interval(unshift(false, lint.front), unshift(true, rint.back)), lval);
                            proof {
                                assert forall|j: int| r.0.lo() <= j <= r.0.hi() implies #[trigger] self.at_key(j) == r.1 by {
                                    if j >= h {
                                        assert(b.1.at_key(2 * j - m) == rval);
                                    } else {
                                        assert(b.0.at_key(2 * j) == lval);
                                    }
                                }
                                if r.0.lo() > 0 {
                                    assert(self.at_key(r.0.lo() - g) == b.0.at_key(lint.lo() - 2 * g));
                                }
                                if r.0.hi() + 1 < m {
                                    assert(self.at_key(r.0.hi() + 1) == b.1.at_key(rint.hi() + 1));
                                }
                            }
                            return r;
                        }
                        proof {
                            assert(self.at_key(h) == b.1.at_key(0));
                        }
                    }
                    let r = (interval(unshift(false, lint.front), unshift(false, lint.back)), lval);
                    proof {
                        assert forall|j: int| r.0.lo() <= j <= r.0.hi() implies #[trigger] self.at_key(j) == r.1 by {
                            assert(b.0.at_key(2 * j) == lval);
                        }
                        if r.0.lo() > 0 {
                            assert(self.at_key(r.0.lo() - g) == b.0.at_key(lint.lo() - 2 * g));
                        }
                        if r.0.hi() + 1 < h {
                            assert(self.at_key(r.0.hi() + 1) == b.0.at_key(lint.hi() + 1));
                        }
                    }
                    r
                }
            },
            TreeIntervalMap::Leaf(y, _) => {
                let lo = K::min_value();
                let hi = K::max_value();
                proof {
                    lemma_levels::<K>(i);
                    assert(0int % (pow2(i) as int) == 0);
                }
                (interval(lo, hi), Some(*y))
            },
            TreeIntervalMap::Empty => {
                let lo = K::min_value();
                let hi = K::max_value();
                proof {
                    assert(0int % (pow2(i) as int) == 0);
                }
                (interval(lo, hi), None)
            },
        }
    }
}

impl<K: FixedUnsigned, V: ValueEq> TreeIntervalMap<K, V> {
    /// Sets every key of `range` to `value`, at level `i` of the trie, where
    /// the ends of `range` lie on block boundaries of the level.
    fn fill_rec(&mut self, range: Interval<K>, value: Option<V>, Ghost(i): Ghost<nat>)
        requires
            i <= K::bits(),
            old(self).wf_depth((K::bits() - i) as nat),
            range.wf(),
            range.lo() % (pow2(i) as int) == 0,
            (range.hi() + 1) % (pow2(i) as int) == 0,
        ensures
            final(self).wf_depth((K::bits() - i) as nat),
            forall|k: int|
                0 <= k < K::modulus() ==> #[trigger] final(self).at_key(k) == if range.has(k) {
                    value
                } else {
                    old(self).at_key(k)
                },
            range.lo() == 0 && range.hi() == K::modulus() - 1 ==> *final(self) == match value {
                None => TreeIntervalMap::<K, V>::Empty,
                Some(v) => TreeIntervalMap::<K, V>::Leaf(v, PhantomData),
            },
        decreases K::bits() - i, 1int,
    {
        proof {
            K::lemma_range(range.front);
            K::lemma_range(range.back);
            lemma_levels::<K>(i);
        }
        if range.front.same(K::min_value()) && range.back.same(K::max_value()) {
            match value {
                None => *self = TreeIntervalMap::Empty,
                Some(v) => *self = TreeIntervalMap::Leaf(v, PhantomData),
            }
        } else {
            let ghost g = pow2(i) as int;
            let ghost m = K::modulus();
            let ghost h = K::half();
            proof {
                if i == K::bits() {
                    lemma_zero_aligned(range.lo(), m);
                    if range.hi() + 1 < m {
                        lemma_zero_aligned(range.hi() + 1, m);
                    }
                    assert(false);
                }
                lemma_double_aligned(range.lo(), g);
                lemma_double_aligned(range.hi() + 1, g);
                lemma_sum_aligned(2 * range.lo(), m, 2 * g);
                lemma_sum_aligned(2 * (range.hi() + 1), m, 2 * g);
            }
            let ghost before = *self;
            let (leftint, rightint) = split(range);
            proof {
                assert(pow2(i + 1) == 2 * g);
                assert(0int % (2 * g) == 0);
                match leftint {
                    Some(l) => {
                        assert(l.lo() % (2 * g) == 0);
                        assert((l.hi() + 1) % (2 * g) == 0);
                    },
                    None => {},
                }
                match rightint {
                    Some(r) => {
                        assert(r.lo() % (2 * g) == 0);
                        assert((r.hi() + 1) % (2 * g) == 0);
                    },
                    None => {},
                }
            }
            let mut cur = TreeIntervalMap::Empty;
            std::mem::swap(self, &mut cur);
            let (mut left, mut right) = match cur {
                TreeIntervalMap::Node(b) => *b,
                TreeIntervalMap::Leaf(y, p) => (TreeIntervalMap::Leaf(y, p), TreeIntervalMap::Leaf(y, p)),
                TreeIntervalMap::Empty => (TreeIntervalMap::Empty, TreeIntervalMap::Empty),
            };
            let ghost left0 = left;
            let ghost right0 = right;
            proof {
                assert forall|k: int| 0 <= k < m implies #[trigger] before.at_key(k) == if k >= h {
                    right0.at_key(2 * k - m)
                } else {
                    left0.at_key(2 * k)
                } by {}
            }
            left.fill_option(leftint, value, Ghost(i + 1));
            right.fill_option(rightint, value, Ghost(i + 1));
            *self = TreeIntervalMap::Node(Box::new((left, right)));
            proof {
                assert forall|k: int| 0 <= k < m implies #[trigger] self.at_key(k) == if range.has(k) {
                    value
                } else {
                    before.at_key(k)
                } by {
                    if k >= h {
                        assert(self.at_key(k) == right.at_key(2 * k - m));
                    } else {
                        assert(self.at_key(k) == left.at_key(2 * k));
                    }
                }
            }
        }
    }

    /// `fill_rec` where there is a range to fill, and nothing otherwise.
    fn fill_option(&mut self, range: Option<Interval<K>>, value: Option<V>, Ghost(i): Ghost<nat>)
        requires
            i <= K::bits(),
            old(self).wf_depth((K::bits() - i) as nat),
            match range {
                Some(r) => r.wf() && r.lo() % (pow2(i) as int) == 0 && (r.hi() + 1) % (pow2(i) as int)
                    == 0,
                None => true,
            },
        ensures
            final(self).wf_depth((K::bits() - i) as nat),
            forall|k: int|
                0 <= k < K::modulus() ==> #[trigger] final(self).at_key(k) == match range {
                    Some(r) => if r.has(k) {
                        value
                    } else {
                        old(self).at_key(k)
                    },
                    None => old(self).at_key(k),
                },
        decreases K::bits() - i, 2int,
    {
        match range {
            None => {},
            Some(range) => self.fill_rec(range, value, Ghost(i)),
        }
    }
}

/// A map from every key of `K` to an optional `V`, that can set a whole
/// interval at once and find the runs of equal values.
pub trait IntervalMap<K: FixedUnsigned, V: ValueEq>: Sized {
    spec fn wf(&self) -> bool;

    /// The value at key `k`, for `0 <= k < K::modulus()`.
    spec fn at(&self, k: int) -> Option<V>;

    fn get(&self, key: K) -> (r: Option<V>)
        requires
            self.wf(),
        ensures
            r == self.at(key.num()),
    ;

    /// The longest interval around `key` on which the value does not change,
    /// with that value.
    fn get_interval(&self, key: K) -> (r: (Interval<K>, Option<V>))
        requires
            self.wf(),
        ensures
            r.0.has(key.num()),
            forall|j: int| r.0.has(j) ==> #[trigger] self.at(j) == r.1,
            r.0.lo() > 0 ==> self.at(r.0.lo() - 1) != r.1,
            r.0.hi() + 1 < K::modulus() ==> self.at(r.0.hi() + 1) != r.1,
    ;

    /// Sets every key of `range` to `value`.
    fn fill(&mut self, range: Interval<K>, value: Option<V>)
        requires
            old(self).wf(),
            range.wf(),
        ensures
            final(self).wf(),
            forall|k: int|
                0 <= k < K::modulus() ==> #[trigger] final(self).at(k) == if range.has(k) {
                    value
                } else {
                    old(self).at(k)
                },
    ;

    /// The first run of `Some` value that meets `range`: the keys of `range`
    /// before it are all `None`. `None` when every key of `range` is `None`.
    fn get_first(&self, range: Interval<K>) -> (r: Option<(Interval<K>, V)>)
        requires
            self.wf(),
            range.wf(),
        ensures
            match r {
                None => forall|k: int| range.has(k) ==> #[trigger] self.at(k) == None::<V>,
                Some((run, v)) => {
                    &&& run.wf()
                    &&& run.hi() >= range.lo()
                    &&& run.lo() <= range.hi()
                    &&& forall|k: int| range.lo() <= k < run.lo() ==> #[trigger] self.at(k) == None::<V>
                    &&& forall|j: int| run.has(j) ==> #[trigger] self.at(j) == Some(v)
                    &&& run.lo() > 0 ==> self.at(run.lo() - 1) != Some(v)
                    &&& run.hi() + 1 < K::modulus() ==> self.at(run.hi() + 1) != Some(v)
                },
            },
    {
        let (front_interval, front_value) = self.get_interval(range.front);
        proof {
            K::lemma_range(front_interval.back);
            K::lemma_range(range.back);
        }
        match front_value {
            Some(value) => {
                return Some((front_interval, value));
            },
            None => {},
        }
        if front_interval.back.less_eq(range.back) && !front_interval.back.same(range.back) {
            match front_interval.back.checked_add(K::one()) {
                Some(next) => {
                    let (second_interval, second_value) = self.get_interval(next);
                    match second_value {
                        Some(value) => {
                            proof {
                                assert(self.at(front_interval.hi()) == None::<V>);
                            }
                            return Some((second_interval, value));
                        },
                        None => {
                            proof {
                                assert(self.at(next.num()) == None::<V>);
                            }
                        },
                    }
                },
                None => {},
            }
        }
        None
    }
}

impl<K: FixedUnsigned, V: ValueEq> IntervalMap<K, V> for TreeIntervalMap<K, V> {
    open spec fn wf(&self) -> bool {
        self.well_formed()
    }

    open spec fn at(&self, k: int) -> Option<V> {
        self.at_key(k)
    }

    fn get(&self, key: K) -> (r: Option<V>) {
        self.get_rec(key)
    }

    fn get_interval(&self, key: K) -> (r: (Interval<K>, Option<V>)) {
        proof {
            vstd::arithmetic::power2::lemma2_to64();
        }
        self.get_interval_rec(key, Ghost(0))
    }

    /// Filling the whole key range leaves a single `Empty` or `Leaf`.
    fn fill(&mut self, range: Interval<K>, value: Option<V>)
        ensures
            range.lo() == 0 && range.hi() == K::modulus() - 1 ==> *final(self) == match value {
                None => TreeIntervalMap::<K, V>::Empty,
                Some(v) => TreeIntervalMap::<K, V>::Leaf(v, PhantomData),
            },
    {
        proof {
            vstd::arithmetic::power2::lemma2_to64();
        }
        self.fill_rec(range, value, Ghost(0))
    }
}

/// Walks the runs of a map from a key up to the greatest key.
pub struct IntervalMapIter<'a, K, V, M> {
    map: &'a M,
    next: Option<K>,
    phantom: PhantomData<V>,
}

impl<'a, K: FixedUnsigned, V: ValueEq, M: IntervalMap<K, V>> IntervalMapIter<'a, K, V, M> {
    pub closed spec fn map(self) -> M {
        *self.map
    }

    /// The key where the next run is looked up; `None` once the greatest key
    /// has been passed.
    pub closed spec fn cursor(self) -> Option<K> {
        self.next
    }

    pub fn new(map: &'a M, key: K) -> (r: Self)
        ensures
            r.map() == *map,
            r.cursor() == Some(key),
    {
        IntervalMapIter { map, next: Some(key), phantom: PhantomData }
    }

    /// The run at the cursor, after which the cursor moves past it.
    pub fn next(&mut self) -> (r: Option<(Interval<K>, Option<V>)>)
        requires
            old(self).map().wf(),
        ensures
            final(self).map() == old(self).map(),
            match old(self).cursor() {
                None => r.is_none() && final(self).cursor().is_none(),
                Some(k) => {
                    let (run, v) = r.unwrap();
                    let m = old(self).map();
                    &&& r.is_some()
                    &&& run.has(k.num())
                    &&& forall|j: int| run.has(j) ==> #[trigger] m.at(j) == v
                    &&& run.lo() > 0 ==> m.at(run.lo() - 1) != v
                    &&& run.hi() + 1 < K::modulus() ==> m.at(run.hi() + 1) != v
                    &&& match final(self).cursor() {
                        Some(n) => n.num() == run.hi() + 1,
                        None => run.hi() + 1 == K::modulus(),
                    }
                },
            },
    {
        match self.next {
            None => None,
            Some(next) => {
                let ret = self.map.get_interval(next);
                let back = ret.0.back;
                proof {
                    K::lemma_range(back);
                }
                self.next = back.checked_add(K::one());
                Some(ret)
            },
        }
    }
}

/// A map from every key to an optional value that holds each `Some` key in
/// a `HashMap`. It works key by key, and serves to check the trie against.
pub struct HashIntervalMap<K, V>(HashMap<K, V>);

impl<K: FixedUnsigned, V: ValueEq> HashIntervalMap<K, V> {
    pub fn new() -> (r: Self)
        ensures
            forall|k: int| #[trigger] r.at(k) == None::<V>,
    {
        HashIntervalMap(HashMap::new())
    }
}

impl<K: FixedUnsigned, V: ValueEq> IntervalMap<K, V> for HashIntervalMap<K, V> {
    open spec fn wf(&self) -> bool {
        true
    }

    closed spec fn at(&self, k: int) -> Option<V> {
        if self.0@.contains_key(K::from_num(k)) {
            Some(self.0@[K::from_num(k)])
        } else {
            None
        }
    }

    fn get(&self, key: K) -> (r: Option<V>) {
        proof {
            K::lemma_key_model();
            K::lemma_from_num(key, 0);
            broadcast use vstd::std_specs::hash::group_hash_axioms;
        }
        match self.0.get(&key) {
            None => None,
            Some(x) => Some(*x),
        }
    }

    fn get_interval(&self, key: K) -> (r: (Interval<K>, Option<V>)) {
        let value = self.get(key);
        proof {
            K::lemma_range(key);
        }
        let mut front = key;
        loop
            invariant
                0 <= front.num() <= key.num(),
                forall|j: int| front.num() <= j <= key.num() ==> #[trigger] self.at(j) == value,
            ensures
                front.num() <= key.num(),
                forall|j: int| front.num() <= j <= key.num() ==> #[trigger] self.at(j) == value,
                front.num() > 0 ==> self.at(front.num() - 1) != value,
            decreases front.num(),
        {
            proof {
                K::lemma_range(front);
            }
            match front.checked_sub(K::one()) {
                None => break,
                Some(next) => {
                    let v = self.get(next);
                    if !same_option(&v, &value) {
                        break;
                    } else {
                        proof {
                            K::lemma_range(next);
                        }
                        front = next;
                    }
                },
            }
        }
        let mut back = key;
        loop
            invariant
                key.num() <= back.num(),
                forall|j: int| key.num() <= j <= back.num() ==> #[trigger] self.at(j) == value,
            ensures
                key.num() <= back.num(),
                forall|j: int| key.num() <= j <= back.num() ==> #[trigger] self.at(j) == value,
                back.num() + 1 < K::modulus() ==> self.at(back.num() + 1) != value,
            decreases K::modulus() - back.num(),
        {
            proof {
                K::lemma_range(back);
            }
            match back.checked_add(K::one()) {
                None => break,
                Some(next) => {
                    let v = self.get(next);
                    if !same_option(&v, &value) {
                        break;
                    } else {
                        back = next;
                    }
                },
            }
        }
        (interval(front, back), value)
    }

    fn fill(&mut self, range: Interval<K>, value: Option<V>) {
        proof {
            K::lemma_key_model();
            K::lemma_range(range.front);
            K::lemma_range(range.back);
            broadcast use vstd::std_specs::hash::group_hash_axioms;
        }
        let ghost before = *self;
        let mut iter = range.front;
        loop
            invariant_except_break
                range.wf(),
                range.lo() <= iter.num() <= range.hi(),
                forall|k: int|
                    0 <= k < K::modulus() ==> #[trigger] self.at(k) == if range.lo() <= k < iter.num() {
                        value
                    } else {
                        before.at(k)
                    },
            ensures
                forall|k: int|
                    0 <= k < K::modulus() ==> #[trigger] self.at(k) == if range.has(k) {
                        value
                    } else {
                        before.at(k)
                    },
            decreases range.hi() - iter.num(),
        {
            proof {
                K::lemma_range(iter);
                K::lemma_from_num(iter, 0);
                K::lemma_key_model();
                broadcast use vstd::std_specs::hash::group_hash_axioms;

            }
            let ghost pre = *self;
            match value {
                None => {
                    self.0.remove(&iter);
                },
                Some(v) => {
                    self.0.insert(iter, v);
                },
            }
            proof {
                assert forall|k: int| 0 <= k < K::modulus() implies #[trigger] self.at(k) == if k
                    == iter.num() {
                    value
                } else {
                    pre.at(k)
                } by {
                    K::lemma_from_num(K::from_num(k), k);
                    if k != iter.num() {
                        assert(K::from_num(k) != iter);
                    }
                }
            }
            match iter.checked_add(K::one()) {
                None => break,
                Some(next) => {
                    if range.back.less_eq(next) && !range.back.same(next) {
                        break;
                    } else {
                        iter = next;
                    }
                },
            }
        }
    }
}

/// The value that key `k` has after the fills `fills`, each a range
/// `[lo, hi]` and a value, made in order on the empty map: that of the last
/// fill whose range holds `k`, or `None`.
pub open spec fn last_fill<V>(fills: Seq<(int, int, Option<V>)>, k: int) -> Option<V>
    decreases fills.len(),
{
    if fills.len() == 0 {
        None
    } else if fills.last().0 <= k <= fills.last().1 {
        fills.last().2
    } else {
        last_fill(fills.drop_last(), k)
    }
}

/// After any sequence of fills on the empty map, each key holds the value
/// of the last fill whose range holds it, or `None` if there is none.
/// `maps[i + 1]` is `maps[i]` after the fill `fills[i]`, as `fill` states.
pub proof fn lemma_fills_round_trip<K: FixedUnsigned, V: ValueEq, M: IntervalMap<K, V>>(
    maps: Seq<M>,
    fills: Seq<(int, int, Option<V>)>,
    k: int,
)
    requires
        maps.len() == fills.len() + 1,
        0 <= k < K::modulus(),
        forall|j: int| 0 <= j < K::modulus() ==> #[trigger] maps[0].at(j) == None::<V>,
        forall|i: int, j: int|
            0 <= i < fills.len() && 0 <= j < K::modulus() ==> #[trigger] maps[i + 1].at(j) == if fills[i].0
                <= j <= fills[i].1 {
                fills[i].2
            } else {
                maps[i].at(j)
            },
    ensures
        maps.last().at(k) == last_fill(fills, k),
    decreases fills.len(),
{
    if fills.len() > 0 {
        let n = fills.len() - 1;
        lemma_fills_round_trip::<K, V, M>(maps.drop_last(), fills.drop_last(), k);
        assert(maps[n + 1].at(k) == if fills[n].0 <= k <= fills[n].1 {
            fills[n].2
        } else {
            maps[n].at(k)
        });
        assert(maps.drop_last().last() == maps[n]);
    }
}

/// When every key holds `Some(v)`, as after filling the whole key range with
/// it, the run around any key is the whole key range.
pub proof fn lemma_full_run<K: FixedUnsigned, V: ValueEq, M: IntervalMap<K, V>>(
    m: M,
    v: V,
    key: K,
    run: Interval<K>,
    value: Option<V>,
)
    requires
        forall|k: int| 0 <= k < K::modulus() ==> #[trigger] m.at(k) == Some(v),
        run.has(key.num()),
        forall|j: int| run.has(j) ==> #[trigger] m.at(j) == value,
        run.lo() > 0 ==> m.at(run.lo() - 1) != value,
        run.hi() + 1 < K::modulus() ==> m.at(run.hi() + 1) != value,
    ensures
        run.lo() == 0,
        run.hi() == K::modulus() - 1,
        value == Some(v),
{
    K::lemma_range(key);
    K::lemma_range(run.front);
    K::lemma_range(run.back);
    assert(m.at(key.num()) == value);
    if run.lo() > 0 {
        assert(m.at(run.lo() - 1) == Some(v));
    }
    if run.hi() + 1 < K::modulus() {
        assert(m.at(run.hi() + 1) == Some(v));
    }
}

} // verus!
