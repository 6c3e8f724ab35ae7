//! The reduction as a state machine over plain mathematical values.
//!
//! The state is `(next_unissued_start, in_flight, accumulator)`. A dispatch
//! step issues the next window; a collect step folds the product of a window
//! that is in flight and ignores every other message.

use crate::math::{factorial_of, lemma_range_product_is_factorial, lemma_range_product_split, range_product_of};
use crate::numeric::NumericAccumulator;
use crate::window::{Window, WINDOW_SIZE};
use vstd::prelude::*;

verus! {

/// The state of a reduction of `1..=n`.
pub struct ReducerState {
    /// The last integer to multiply.
    pub n: u64,
    /// The most windows that may be in flight at once.
    pub concurrency: u8,
    /// The last integer that has been issued in a window; 0 before the first
    /// dispatch. The next unissued start is `issued + 1`.
    pub issued: u64,
    /// The starts of the windows that were dispatched and not yet folded.
    pub in_flight: Set<u64>,
    /// The integer that the running product stands for.
    pub accumulator: int,
}

/// The start of the window that ends at `issued`, when windows are cut from
/// 1 upwards and only the last may be short.
pub open spec fn last_window_start(issued: int) -> int {
    issued - (issued - 1) % (WINDOW_SIZE as int)
}

/// The product of the windows that cover `1..=issued` and are not in flight:
/// the exact product of what has been folded.
pub open spec fn folded_product(in_flight: Set<u64>, issued: int) -> int
    decreases issued,
{
    if issued <= 0 {
        1
    } else {
        let start = last_window_start(issued);
        folded_product(in_flight, start - 1) * (if in_flight.contains(start as u64) {
            1
        } else {
            range_product_of(start, issued)
        })
    }
}

impl ReducerState {
    /// The state before anything was dispatched.
    pub open spec fn initial<T: NumericAccumulator>(n: u64, concurrency: u8) -> ReducerState {
        ReducerState { n, concurrency, issued: 0, in_flight: Set::empty(), accumulator: T::represent(1) }
    }

    /// The first integer that no window has been issued for.
    pub open spec fn next_unissued_start(self) -> int {
        self.issued + 1
    }

    /// A window may be dispatched: integers are left and the in-flight set is
    /// not full.
    pub open spec fn can_dispatch(self) -> bool {
        self.issued < self.n && self.in_flight.len() < self.concurrency
    }

    /// The window that the next dispatch issues: a full window from the next
    /// unissued start, cut off at `n`.
    pub open spec fn next_window(self) -> Window {
        Window {
            start: (self.issued + 1) as u64,
            end: if self.n - self.issued <= WINDOW_SIZE {
                self.n
            } else {
                (self.issued + WINDOW_SIZE) as u64
            },
        }
    }

    /// The state after the next window was dispatched.
    pub open spec fn dispatch(self) -> ReducerState {
        ReducerState {
            issued: self.next_window().end,
            in_flight: self.in_flight.insert(self.next_window().start),
            ..self
        }
    }

    /// The end of the issued window that starts at `start`.
    pub open spec fn window_end(self, start: u64) -> int {
        if start + WINDOW_SIZE - 1 <= self.issued {
            start + WINDOW_SIZE - 1
        } else {
            self.issued as int
        }
    }

    /// A message for `window` is folded: its start is in flight and it is the
    /// window that was issued under that start.
    pub open spec fn accepts(self, window: Window) -> bool {
        self.in_flight.contains(window.start) && window.end == self.window_end(window.start)
    }

    /// The state after a message for `window` arrived with a product that
    /// stands for `partial`.
    pub open spec fn collect<T: NumericAccumulator>(self, window: Window, partial: int) -> ReducerState {
        if self.accepts(window) {
            ReducerState {
                in_flight: self.in_flight.remove(window.start),
                accumulator: T::represent(self.accumulator * partial),
                ..self
            }
        } else {
            self
        }
    }

    /// Everything was issued and folded.
    pub open spec fn finished(self) -> bool {
        self.issued >= self.n && self.in_flight.is_empty()
    }

    /// What holds of every state that a reduction goes through.
    pub open spec fn wf<T: NumericAccumulator>(self) -> bool {
        &&& self.concurrency >= 1
        &&& self.issued <= self.n
        &&& self.issued < self.n ==> self.issued % WINDOW_SIZE == 0
        &&& self.in_flight.finite()
        &&& self.in_flight.len() <= self.concurrency
        &&& forall|s: u64| #[trigger]
            self.in_flight.contains(s) ==> 1 <= s <= self.issued && (s - 1) % (WINDOW_SIZE as int) == 0
        &&& self.accumulator == T::represent(folded_product(self.in_flight, self.issued as int))
    }
}

/// Only the in-flight starts up to `issued` matter to the folded product.
pub proof fn lemma_folded_frame(a: Set<u64>, b: Set<u64>, issued: int)
    requires
        issued <= u64::MAX,
        forall|s: u64| 1 <= s <= issued ==> a.contains(s) == b.contains(s),
    ensures
        folded_product(a, issued) == folded_product(b, issued),
    decreases issued,
{
    if issued > 0 {
        let start = last_window_start(issued);
        lemma_folded_frame(a, b, start - 1);
        assert(a.contains(start as u64) == b.contains(start as u64));
    }
}

/// Taking a window out of flight multiplies the folded product by the
/// product of that window.
pub proof fn lemma_folded_remove(in_flight: Set<u64>, issued: int, start: u64)
    requires
        issued <= u64::MAX,
        in_flight.contains(start),
        1 <= start <= issued,
        (start - 1) % (WINDOW_SIZE as int) == 0,
    ensures
        folded_product(in_flight.remove(start), issued) == folded_product(in_flight, issued)
            * range_product_of(
            start as int,
            if start + WINDOW_SIZE - 1 <= issued {
                start + WINDOW_SIZE - 1
            } else {
                issued
            },
        ),
    decreases issued,
{
    let last = last_window_start(issued);
    let rest = in_flight.remove(start);
    if start == last {
        lemma_folded_frame(rest, in_flight, last - 1);
        assert(folded_product(rest, issued) == folded_product(rest, last - 1) * range_product_of(
            last,
            issued,
        ));
        assert(folded_product(in_flight, issued) == folded_product(in_flight, last - 1) * 1);
        assert(folded_product(in_flight, last - 1) * 1 == folded_product(in_flight, last - 1))
            by (nonlinear_arith);
    } else {
        assert(start + WINDOW_SIZE <= last);
        lemma_folded_remove(in_flight, last - 1, start);
        let window = range_product_of(start as int, start + WINDOW_SIZE - 1);
        let factor = if in_flight.contains(last as u64) {
            1
        } else {
            range_product_of(last, issued)
        };
        assert(rest.contains(last as u64) == in_flight.contains(last as u64));
        let before = folded_product(in_flight, last - 1);
        assert(folded_product(rest, issued) == (before * window) * factor);
        assert(folded_product(in_flight, issued) == before * factor);
        assert((before * window) * factor == (before * factor) * window) by (nonlinear_arith);
    }
}

/// With nothing in flight, the folded product is the product of all that
/// was issued.
pub proof fn lemma_folded_all(issued: int)
    ensures
        folded_product(Set::empty(), issued) == range_product_of(1, issued),
    decreases issued,
{
    if issued > 0 {
        let last = last_window_start(issued);
        lemma_folded_all(last - 1);
        lemma_range_product_split(1, last - 1, issued);
    }
}

/// The initial state is well formed.
pub proof fn lemma_initial_wf<T: NumericAccumulator>(n: u64, concurrency: u8)
    requires
        concurrency >= 1,
    ensures
        ReducerState::initial::<T>(n, concurrency).wf::<T>(),
{
}

/// For `n == 0` the initial state is already finished, and for an `n` of at
/// most one window size the first dispatch issues all of `1..=n` as a single
/// window.
pub proof fn lemma_at_most_one_window<T: NumericAccumulator>(n: u64, concurrency: u8)
    requires
        concurrency >= 1,
        n <= WINDOW_SIZE,
    ensures
        n == 0 ==> ReducerState::initial::<T>(n, concurrency).finished(),
        n >= 1 ==> {
            let state = ReducerState::initial::<T>(n, concurrency);
            &&& state.can_dispatch()
            &&& state.next_window() == Window { start: 1, end: n }
            &&& state.dispatch().issued == n
        },
{
}

/// A dispatch step keeps the state well formed. It puts exactly one new
/// start in flight and leaves the accumulator alone.
pub proof fn lemma_dispatch_wf<T: NumericAccumulator>(state: ReducerState)
    requires
        state.wf::<T>(),
        state.can_dispatch(),
    ensures
        state.dispatch().wf::<T>(),
        state.next_window().wf(),
        !state.in_flight.contains(state.next_window().start),
        state.dispatch().in_flight.len() == state.in_flight.len() + 1,
        state.dispatch().issued > state.issued,
        state.dispatch().accepts(state.next_window()),
{
    let next = state.dispatch();
    let window = state.next_window();
    assert(last_window_start(next.issued as int) == window.start);
    lemma_folded_frame(next.in_flight, state.in_flight, state.issued as int);
    assert(folded_product(next.in_flight, next.issued as int) == folded_product(
        next.in_flight,
        state.issued as int,
    ) * 1);
    assert forall|s: u64| #[trigger] next.in_flight.contains(s) implies 1 <= s <= next.issued && (s
        - 1) % (WINDOW_SIZE as int) == 0 by {
        if s != window.start {
            assert(state.in_flight.contains(s));
        }
    }
}

/// A window that would be folded before a dispatch step would be folded
/// after it too, and it is not the window that the step issues.
pub proof fn lemma_dispatch_keeps_accepted<T: NumericAccumulator>(state: ReducerState, window: Window)
    requires
        state.wf::<T>(),
        state.can_dispatch(),
        state.accepts(window),
    ensures
        state.dispatch().accepts(window),
        window.start != state.next_window().start,
{
    assert(state.in_flight.contains(window.start));
    assert((window.start - 1) % (WINDOW_SIZE as int) == 0);
    assert(window.start + WINDOW_SIZE - 1 <= state.issued);
}

/// A collect step keeps the state well formed, whatever window the message
/// is for, as long as the message carries the product of its window.
pub proof fn lemma_collect_wf<T: NumericAccumulator>(state: ReducerState, window: Window, partial: int)
    requires
        state.wf::<T>(),
        partial == T::represent(window.product()),
    ensures
        state.collect::<T>(window, partial).wf::<T>(),
{
    if state.accepts(window) {
        let next = state.collect::<T>(window, partial);
        lemma_folded_remove(state.in_flight, state.issued as int, window.start);
        T::lemma_represent_product(folded_product(state.in_flight, state.issued as int), window.product());
        assert forall|s: u64| #[trigger] next.in_flight.contains(s) implies 1 <= s <= next.issued && (s
            - 1) % (WINDOW_SIZE as int) == 0 by {
            assert(state.in_flight.contains(s));
        }
    }
}

/// When a reduction has finished, its accumulator holds what the sequential
/// product of `1..=n` holds, and that is `n!`.
pub proof fn lemma_finished_accumulator<T: NumericAccumulator>(state: ReducerState)
    requires
        state.wf::<T>(),
        state.finished(),
    ensures
        state.accumulator == T::represent(range_product_of(1, state.n as int)),
        state.accumulator == T::represent(factorial_of(state.n as int)),
{
    assert(state.in_flight =~= Set::empty());
    lemma_folded_all(state.issued as int);
    lemma_range_product_is_factorial(state.n as int);
}

/// Bounded concurrency: in no state of a reduction are more windows in
/// flight than the concurrency limit allows, and no dispatch is possible
/// once the limit is reached.
pub proof fn lemma_bounded_concurrency<T: NumericAccumulator>(state: ReducerState)
    requires
        state.wf::<T>(),
    ensures
        state.in_flight.len() <= state.concurrency,
        state.in_flight.len() == state.concurrency ==> !state.can_dispatch(),
        state.can_dispatch() ==> state.dispatch().in_flight.len() <= state.concurrency,
{
    if state.can_dispatch() {
        lemma_dispatch_wf::<T>(state);
    }
}

/// Idempotent fold: a message for a window start that is not in flight
/// changes nothing, and after a message was handled, a second message for
/// the same window changes nothing.
pub proof fn lemma_collect_idempotent<T: NumericAccumulator>(
    state: ReducerState,
    window: Window,
    partial: int,
    duplicate: int,
)
    ensures
        !state.in_flight.contains(window.start) ==> state.collect::<T>(window, partial) == state,
        state.collect::<T>(window, partial).collect::<T>(window, duplicate) == state.collect::<T>(
            window,
            partial,
        ),
{
}

/// Concurrency invariance: two finished reductions of the same `n` hold the
/// same product, whatever their concurrency limits were and in whatever
/// order their windows were folded.
pub proof fn lemma_concurrency_invariance<T: NumericAccumulator>(a: ReducerState, b: ReducerState)
    requires
        a.wf::<T>(),
        b.wf::<T>(),
        a.finished(),
        b.finished(),
        a.n == b.n,
    ensures
        a.accumulator == b.accumulator,
{
    lemma_finished_accumulator::<T>(a);
    lemma_finished_accumulator::<T>(b);
}

} // verus!
