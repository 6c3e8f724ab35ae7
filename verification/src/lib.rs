//! Factorials of large integers.
//!
//! [`factorial`] multiplies `1..=n` on the calling thread.
//! [`parallel_factorial`] cuts `1..=n` into windows of a fixed size, keeps a
//! bounded number of them in flight on a thread pool, and folds the partial
//! products into one accumulator as they complete.
//!
//! Both are generic over the numeric type of the result, see
//! [`NumericAccumulator`]: [`BigNat`] holds every factorial exactly, `u64`
//! and `u128` hold it modulo 2^64 and 2^128.

pub mod bignat;
pub mod math;
pub mod model;
pub mod numeric;
pub mod reducer;
pub mod window;

pub use crate::bignat::BigNat;
pub use crate::numeric::NumericAccumulator;
pub use crate::reducer::WindowedReducer;
pub use crate::window::{range_product, run_window, CompletionMessage, Window, WINDOW_SIZE};

use crate::math::{factorial_of, lemma_range_product_is_factorial, range_product_of};
use vstd::prelude::*;

verus! {

/// Why a reduction was not started.
#[derive(Clone, Copy, Debug, PartialEq, Eq, Structural)]
pub enum ConfigError {
    /// The concurrency limit was zero: no window could ever be dispatched.
    ZeroConcurrency,
}

impl ConfigError {
    /// What went wrong, in words.
    pub fn describe(&self) -> (text: &'static str)
        ensures
            text@ == "the concurrency limit must be at least 1"@,
    {
        match self {
            ConfigError::ZeroConcurrency => "the concurrency limit must be at least 1",
        }
    }
}

/// The factorial of `n`, multiplied on the calling thread.
pub fn factorial<T: NumericAccumulator>(n: u64) -> (product: T)
    ensures
        product.value() == T::represent(factorial_of(n as int)),
        product.value() == T::represent(range_product_of(1, n as int)),
{
    proof {
        lemma_range_product_is_factorial(n as int);
    }
    range_product(1, n)
}

/// The factorial of `n`, multiplied window by window on the thread pool with
/// at most `concurrency` windows in flight at any time.
///
/// A concurrency limit of zero is rejected before any work is done. For every
/// other limit the result is the same.
pub fn parallel_factorial<T: NumericAccumulator + Send>(n: u64, concurrency: u8) -> (result: Result<
    T,
    ConfigError,
>)
    ensures
        concurrency == 0 <==> result == Err::<T, ConfigError>(ConfigError::ZeroConcurrency),
        concurrency >= 1 <==> result is Ok,
        result is Ok ==> result->Ok_0.value() == T::represent(factorial_of(n as int)),
{
    if concurrency == 0 {
        return Err(ConfigError::ZeroConcurrency);
    }
    Ok(WindowedReducer::reduce(n, concurrency))
}

/// Each factorial is the one before it times `n`, in the integers and in the
/// arithmetic of every numeric type: `factorial(n)` holds what
/// `from_u64(n).multiply(factorial(n - 1))` holds.
pub proof fn lemma_factorial_step<T: NumericAccumulator>(n: int)
    requires
        n > 0,
    ensures
        factorial_of(n) == n * factorial_of(n - 1),
        T::represent(factorial_of(n)) == T::represent(
            T::represent(n) * T::represent(factorial_of(n - 1)),
        ),
{
    T::lemma_represent_product(n, factorial_of(n - 1));
}

} // verus!
