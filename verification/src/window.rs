//! Windows of work and the products computed over them.

use crate::math::range_product_of;
use crate::numeric::NumericAccumulator;
use vstd::prelude::*;

verus! {

/// The number of integers in a full window.
pub const WINDOW_SIZE: u64 = 10_000;

/// The integers `start..=end`, handed out as one unit of work.
#[derive(Clone, Copy, Debug, PartialEq, Eq, Structural)]
pub struct Window {
    pub start: u64,
    pub end: u64,
}

impl Window {
    /// A window holds at least one integer.
    pub open spec fn wf(self) -> bool {
        self.start <= self.end
    }

    /// The product of the integers in the window.
    pub open spec fn product(self) -> int {
        range_product_of(self.start as int, self.end as int)
    }
}

/// The product of the integers `from..=to`, multiplied in ascending order
/// starting from one. An empty range (`from > to`) gives one.
pub fn range_product<T: NumericAccumulator>(from: u64, to: u64) -> (r: T)
    ensures
        r.value() == T::represent(range_product_of(from as int, to as int)),
{
    let mut acc: T = T::from_u64(1);
    if from > to {
        return acc;
    }
    let mut next: u64 = from;
    let mut done: bool = false;
    while !done
        invariant
            from <= next <= to,
            !done ==> acc.value() == T::represent(range_product_of(from as int, next as int - 1)),
            done ==> acc.value() == T::represent(range_product_of(from as int, to as int)),
        decreases to - next + (if done { 0int } else { 1int }),
    {
        let ghost before = range_product_of(from as int, next as int - 1);
        acc = acc.multiply(T::from_u64(next));
        proof {
            T::lemma_represent_product(before, next as int);
        }
        if next < to {
            next = next + 1;
        } else {
            done = true;
        }
    }
    acc
}

/// What a worker reports when it has finished a window: the window it was
/// given and the product of the integers in it.
///
/// A message can only be made by [`run_window`], so the product it carries is
/// always the product of its window.
pub struct CompletionMessage<T: NumericAccumulator> {
    partial_product: T,
    window: Window,
}

impl<T: NumericAccumulator> CompletionMessage<T> {
    #[verifier::type_invariant]
    spec fn carries_window_product(self) -> bool {
        self.partial_product.value() == T::represent(self.window.product())
    }

    /// The window that was worked on.
    pub closed spec fn window(self) -> Window {
        self.window
    }

    /// The integer that the reported product stands for.
    pub closed spec fn partial_value(self) -> int {
        self.partial_product.value()
    }

    /// The first integer of the window that was worked on.
    pub fn window_start(&self) -> (start: u64)
        ensures
            start == self.window().start,
    {
        self.window.start
    }

    /// The last integer of the window that was worked on.
    pub fn window_end(&self) -> (end: u64)
        ensures
            end == self.window().end,
    {
        self.window.end
    }

    /// Takes the message apart.
    pub fn into_parts(self) -> (parts: (T, Window))
        ensures
            parts.0.value() == self.partial_value(),
            parts.0.value() == T::represent(self.window().product()),
            parts.1 == self.window(),
    {
        proof {
            use_type_invariant(&self);
        }
        (self.partial_product, self.window)
    }
}

/// The work done for one window: multiplies the integers in it and reports
/// the product together with the window.
pub fn run_window<T: NumericAccumulator>(window: Window) -> (message: CompletionMessage<T>)
    ensures
        message.window() == window,
        message.partial_value() == T::represent(window.product()),
{
    let partial_product: T = range_product(window.start, window.end);
    CompletionMessage { partial_product, window }
}

} // verus!
