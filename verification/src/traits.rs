//! What the session manager asks of the types it is used with.

use crate::codec::Codec;
use vstd::prelude::*;

verus! {

/// An unsigned number of a fixed width.
pub trait SimpleArithmetic: DeepView + Sized {
    /// The number that is meant.
    spec fn value(&self) -> int;

    /// The smallest number that is too large for the type.
    spec fn limit() -> int;

    /// The content of a value that stands for `n`.
    spec fn numeral(n: int) -> Self::V;

    /// The type holds no number outside its range, and is at least a byte wide.
    proof fn lemma_in_range(&self)
        ensures
            0 <= self.value() < Self::limit(),
            256 <= Self::limit(),
    ;

    /// Nothing but the number makes up the content of a value.
    proof fn lemma_numeral(&self)
        ensures
            self.deep_view() == Self::numeral(self.value()),
    ;

    /// Different numbers make different contents.
    proof fn lemma_numerals_differ(m: int, n: int)
        requires
            0 <= m < Self::limit(),
            0 <= n < Self::limit(),
            Self::numeral(m) == Self::numeral(n),
        ensures
            m == n,
    ;

    fn zero() -> (n: Self)
        ensures
            n.value() == 0,
    ;

    fn one() -> (n: Self)
        ensures
            n.value() == 1,
    ;

    /// The same number once more.
    fn copied(&self) -> (n: Self)
        ensures
            n.value() == self.value(),
    ;

    fn is_zero(&self) -> (answer: bool)
        ensures
            answer == (self.value() == 0),
    ;

    fn exceeds(&self, other: &Self) -> (answer: bool)
        ensures
            answer == (self.value() > other.value()),
    ;

    fn plus(&self, other: &Self) -> (n: Self)
        requires
            self.value() + other.value() < Self::limit(),
        ensures
            n.value() == self.value() + other.value(),
    ;

    fn minus(&self, other: &Self) -> (n: Self)
        requires
            self.value() >= other.value(),
        ensures
            n.value() == self.value() - other.value(),
    ;

    fn times(&self, other: &Self) -> (n: Self)
        requires
            self.value() * other.value() < Self::limit(),
        ensures
            n.value() == self.value() * other.value(),
    ;

    fn divided_by(&self, other: &Self) -> (n: Self)
        requires
            other.value() != 0,
        ensures
            n.value() == self.value() / other.value(),
    ;

    fn modulo(&self, other: &Self) -> (n: Self)
        requires
            other.value() != 0,
        ensures
            n.value() == self.value() % other.value(),
    ;
}

/// Conversion from another number type. What does not fit is cut off at the top.
pub trait As<N: SimpleArithmetic>: SimpleArithmetic {
    fn sa(n: N) -> (m: Self)
        ensures
            m.value() == n.value() % Self::limit(),
    ;
}

/// A value that is kept in storage, compared and handed on.
pub trait Parameter: Codec {
    /// The same value once more.
    fn duplicate(&self) -> (copy: Self)
        ensures
            copy.deep_view() == self.deep_view(),
    ;

    /// Whether the two values are the same.
    fn same(&self, other: &Self) -> (answer: bool)
        ensures
            answer == (self.deep_view() == other.deep_view()),
    ;
}

/// A function from `A` to `B`, carried by a type.
pub trait Convert<A: DeepView, B: DeepView> {
    spec fn converted(a: A::V) -> B::V;

    fn convert(a: A) -> (b: B)
        ensures
            b.deep_view() == Self::converted(a.deep_view()),
    ;
}

/// The conversion that leaves every value as it is.
pub struct Identity;

impl<A: DeepView> Convert<A, A> for Identity {
    open spec fn converted(a: A::V) -> A::V {
        a
    }

    fn convert(a: A) -> (b: A) {
        a
    }
}

/// A value that holds an `A`, or is one.
pub trait RefInto<A> {
    spec fn target(&self) -> A;

    fn ref_into(&self) -> (a: &A)
        ensures
            *a == self.target(),
    ;
}

impl<A> RefInto<A> for A {
    open spec fn target(&self) -> A {
        *self
    }

    fn ref_into(&self) -> (a: &A) {
        self
    }
}

impl SimpleArithmetic for u32 {
    open spec fn value(&self) -> int {
        *self as int
    }

    open spec fn limit() -> int {
        0x1_0000_0000
    }

    open spec fn numeral(n: int) -> u32 {
        n as u32
    }

    proof fn lemma_in_range(&self) {
    }

    proof fn lemma_numeral(&self) {
    }

    proof fn lemma_numerals_differ(m: int, n: int) {
    }

    fn zero() -> (n: u32) {
        0
    }

    fn one() -> (n: u32) {
        1
    }

    fn copied(&self) -> (n: u32) {
        *self
    }

    fn is_zero(&self) -> (answer: bool) {
        *self == 0
    }

    fn exceeds(&self, other: &u32) -> (answer: bool) {
        *self > *other
    }

    fn plus(&self, other: &u32) -> (n: u32) {
        *self + *other
    }

    fn minus(&self, other: &u32) -> (n: u32) {
        *self - *other
    }

    fn times(&self, other: &u32) -> (n: u32) {
        *self * *other
    }

    fn divided_by(&self, other: &u32) -> (n: u32) {
        *self / *other
    }

    fn modulo(&self, other: &u32) -> (n: u32) {
        *self % *other
    }
}

impl SimpleArithmetic for u64 {
    open spec fn value(&self) -> int {
        *self as int
    }

    open spec fn limit() -> int {
        0x1_0000_0000_0000_0000
    }

    open spec fn numeral(n: int) -> u64 {
        n as u64
    }

    proof fn lemma_in_range(&self) {
    }

    proof fn lemma_numeral(&self) {
    }

    proof fn lemma_numerals_differ(m: int, n: int) {
    }

    fn zero() -> (n: u64) {
        0
    }

    fn one() -> (n: u64) {
        1
    }

    fn copied(&self) -> (n: u64) {
        *self
    }

    fn is_zero(&self) -> (answer: bool) {
        *self == 0
    }

    fn exceeds(&self, other: &u64) -> (answer: bool) {
        *self > *other
    }

    fn plus(&self, other: &u64) -> (n: u64) {
        *self + *other
    }

    fn minus(&self, other: &u64) -> (n: u64) {
        *self - *other
    }

    fn times(&self, other: &u64) -> (n: u64) {
        *self * *other
    }

    fn divided_by(&self, other: &u64) -> (n: u64) {
        *self / *other
    }

    fn modulo(&self, other: &u64) -> (n: u64) {
        *self % *other
    }
}

impl As<u32> for u32 {
    fn sa(n: u32) -> (m: u32) {
        n
    }
}

impl As<u64> for u32 {
    fn sa(n: u64) -> (m: u32) {
        assert(n as u32 == n % 0x1_0000_0000) by (bit_vector);
        n as u32
    }
}

impl As<u32> for u64 {
    fn sa(n: u32) -> (m: u64) {
        n as u64
    }
}

impl As<u64> for u64 {
    fn sa(n: u64) -> (m: u64) {
        n
    }
}

impl Parameter for u32 {
    fn duplicate(&self) -> (copy: u32) {
        *self
    }

    fn same(&self, other: &u32) -> (answer: bool) {
        *self == *other
    }
}

impl Parameter for u64 {
    fn duplicate(&self) -> (copy: u64) {
        *self
    }

    fn same(&self, other: &u64) -> (answer: bool) {
        *self == *other
    }
}

} // verus!
