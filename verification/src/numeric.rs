//! The capability a numeric type needs to take part in a reduction:
//! construction from a `u64` and multiplication.

use vstd::arithmetic::div_mod::{lemma_mul_mod_noop, lemma_small_mod};
use vstd::prelude::*;

verus! {

/// A numeric type that products can be accumulated in.
///
/// Each value stands for an integer, its `value()`. A type need not be able to
/// hold every integer: `represent(x)` is the integer that the type holds in
/// place of `x` (`x` itself for an arbitrary-precision type, `x` modulo a power
/// of two for a fixed-width type that wraps). The two laws make `represent` a
/// homomorphism for multiplication, so that partial products may be folded in
/// any order and any grouping without changing the result.
pub trait NumericAccumulator: Sized {
    /// The integer this value stands for.
    spec fn value(&self) -> int;

    /// The integer that the type holds in place of `x`.
    spec fn represent(x: int) -> int;

    /// Representing the factors first does not change the represented product.
    proof fn lemma_represent_product(a: int, b: int)
        ensures
            Self::represent(Self::represent(a) * Self::represent(b)) == Self::represent(a * b),
    ;

    /// What a value holds is already represented.
    proof fn lemma_value_represented(x: &Self)
        ensures
            Self::represent(x.value()) == x.value(),
    ;

    /// The value that stands for `x`.
    fn from_u64(x: u64) -> (r: Self)
        ensures
            r.value() == Self::represent(x as int),
    ;

    /// The product of two values.
    fn multiply(self, rhs: Self) -> (r: Self)
        ensures
            r.value() == Self::represent(self.value() * rhs.value()),
    ;
}

/// Multiplication wraps around modulo 2^64.
impl NumericAccumulator for u64 {
    open spec fn value(&self) -> int {
        *self as int
    }

    open spec fn represent(x: int) -> int {
        x % 0x1_0000_0000_0000_0000
    }

    proof fn lemma_represent_product(a: int, b: int) {
        lemma_mul_mod_noop(a, b, 0x1_0000_0000_0000_0000);
        lemma_small_mod(
            ((a % 0x1_0000_0000_0000_0000) * (b % 0x1_0000_0000_0000_0000)
                % 0x1_0000_0000_0000_0000) as nat,
            0x1_0000_0000_0000_0000,
        );
    }

    proof fn lemma_value_represented(x: &Self) {
        lemma_small_mod(*x as nat, 0x1_0000_0000_0000_0000);
    }

    fn from_u64(x: u64) -> (r: Self) {
        proof {
            lemma_small_mod(x as nat, 0x1_0000_0000_0000_0000);
        }
        x
    }

    fn multiply(self, rhs: Self) -> (r: Self) {
        proof {
            assert(0 <= self as int * rhs as int) by (nonlinear_arith);
        }
        self.wrapping_mul(rhs)
    }
}

/// Multiplication wraps around modulo 2^128.
impl NumericAccumulator for u128 {
    open spec fn value(&self) -> int {
        *self as int
    }

    open spec fn represent(x: int) -> int {
        x % 0x1_0000_0000_0000_0000_0000_0000_0000_0000int
    }

    proof fn lemma_represent_product(a: int, b: int) {
        lemma_mul_mod_noop(a, b, 0x1_0000_0000_0000_0000_0000_0000_0000_0000int);
    }

    proof fn lemma_value_represented(x: &Self) {
        lemma_small_mod(*x as nat, 0x1_0000_0000_0000_0000_0000_0000_0000_0000nat);
    }

    fn from_u64(x: u64) -> (r: Self) {
        proof {
            lemma_small_mod(x as nat, 0x1_0000_0000_0000_0000_0000_0000_0000_0000nat);
        }
        x as u128
    }

    fn multiply(self, rhs: Self) -> (r: Self) {
        proof {
            assert(0 <= self as int * rhs as int) by (nonlinear_arith);
        }
        self.wrapping_mul(rhs)
    }
}

/// The contract of the capability makes multiplication a commutative monoid
/// on the values that a type holds: one is a left and a right identity, and
/// products do not depend on the order or the grouping of the factors.
pub proof fn lemma_multiplication_laws<T: NumericAccumulator>(a: &T, b: &T, c: &T)
    ensures
        T::represent(T::represent(1) * a.value()) == a.value(),
        T::represent(a.value() * T::represent(1)) == a.value(),
        T::represent(a.value() * b.value()) == T::represent(b.value() * a.value()),
        T::represent(T::represent(a.value() * b.value()) * c.value()) == T::represent(
            a.value() * T::represent(b.value() * c.value()),
        ),
{
    let (x, y, z) = (a.value(), b.value(), c.value());
    T::lemma_value_represented(a);
    T::lemma_value_represented(b);
    T::lemma_value_represented(c);
    T::lemma_represent_product(1, x);
    T::lemma_represent_product(x, 1);
    assert(1 * x == x && x * 1 == x);
    assert(x * y == y * x) by (nonlinear_arith);
    T::lemma_represent_product(x * y, z);
    T::lemma_represent_product(x, y * z);
    assert((x * y) * z == x * (y * z)) by (nonlinear_arith);
}

} // verus!
