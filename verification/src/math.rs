//! The mathematics that the contracts of this crate are stated over:
//! factorials and products of inclusive integer ranges.

use vstd::prelude::*;

verus! {

/// The factorial `n!`, by its textbook recurrence. It is 1 for every `n <= 0`.
pub open spec fn factorial_of(n: int) -> int
    decreases n,
{
    if n <= 0 {
        1
    } else {
        n * factorial_of(n - 1)
    }
}

/// The product of the integers `from, from + 1, ..., to`, taken in ascending
/// order. The empty range (`from > to`) has the product 1.
pub open spec fn range_product_of(from: int, to: int) -> int
    decreases to - from + 1,
{
    if from > to {
        1
    } else {
        range_product_of(from, to - 1) * to
    }
}

/// A range product can be cut at any point `mid` inside the range: the
/// product over `[from, to]` is the product over `[from, mid]` times the
/// product over `[mid + 1, to]`.
pub proof fn lemma_range_product_split(from: int, mid: int, to: int)
    requires
        from - 1 <= mid <= to,
    ensures
        range_product_of(from, to) == range_product_of(from, mid) * range_product_of(mid + 1, to),
    decreases to - mid,
{
    if mid == to {
        assert(range_product_of(mid + 1, to) == 1);
        assert(range_product_of(from, mid) * 1 == range_product_of(from, mid));
    } else {
        lemma_range_product_split(from, mid, to - 1);
        let left = range_product_of(from, mid);
        let right = range_product_of(mid + 1, to - 1);
        assert(range_product_of(from, to) == range_product_of(from, to - 1) * to);
        assert(range_product_of(mid + 1, to) == right * to);
        assert((left * right) * to == left * (right * to)) by (nonlinear_arith);
    }
}

/// The product of `1..=n` is the factorial of `n`.
pub proof fn lemma_range_product_is_factorial(n: int)
    ensures
        range_product_of(1, n) == factorial_of(n),
    decreases n,
{
    if n >= 1 {
        lemma_range_product_is_factorial(n - 1);
        assert(range_product_of(1, n - 1) * n == n * factorial_of(n - 1)) by (nonlinear_arith)
            requires
                range_product_of(1, n - 1) == factorial_of(n - 1),
        ;
    }
}

} // verus!
