//! The element type of a matrix.
use vstd::prelude::*;

verus! {

/// An element of a matrix: a value with a zero, an addition and a
/// multiplication.
///
/// Each operation has a mathematical meaning (`zero_value`, `sum`, `product`)
/// and an executable form (`zero`, `plus`, `times`) that computes it. The
/// meanings are ghost: contracts and proofs are written in them, and compiled
/// code calls the executable forms only. No law of algebra is asked of the
/// operations: the kernels fix the order of every addition, so their contracts
/// hold of operations that round.
pub trait Scalar: Copy {
    /// What `zero` returns.
    spec fn zero_value() -> Self;

    /// What `plus` returns.
    spec fn sum(self, rhs: Self) -> Self;

    /// What `times` returns.
    spec fn product(self, rhs: Self) -> Self;

    /// The value an overwriting kernel starts every entry from.
    fn zero() -> (r: Self)
        ensures
            r == Self::zero_value(),
    ;

    /// `self + rhs`.
    fn plus(self, rhs: Self) -> (r: Self)
        ensures
            r == self.sum(rhs),
    ;

    /// `self * rhs`.
    fn times(self, rhs: Self) -> (r: Self)
        ensures
            r == self.product(rhs),
    ;
}

/// Two's-complement integers: sums and products wrap around.
impl Scalar for i64 {
    open spec fn zero_value() -> i64 {
        0i64
    }

    open spec fn sum(self, rhs: i64) -> i64 {
        vstd::wrapping::i64_specs::wrapping_add(self, rhs)
    }

    open spec fn product(self, rhs: i64) -> i64 {
        vstd::wrapping::i64_specs::wrapping_mul(self, rhs)
    }

    fn zero() -> (r: i64) {
        0i64
    }

    fn plus(self, rhs: i64) -> (r: i64) {
        self.wrapping_add(rhs)
    }

    fn times(self, rhs: i64) -> (r: i64) {
        self.wrapping_mul(rhs)
    }
}

} // verus!
