//! The windowed reducer: the orchestrator that issues windows, keeps a
//! bounded number of them in flight and folds their products.

use crate::math::factorial_of;
use crate::model::{
    lemma_collect_wf, lemma_dispatch_keeps_accepted, lemma_dispatch_wf, lemma_finished_accumulator,
    lemma_initial_wf, ReducerState,
};
use crate::numeric::NumericAccumulator;
use crate::window::{run_window, CompletionMessage, Window, WINDOW_SIZE};
use rayon::iter::{IndexedParallelIterator, IntoParallelRefIterator, ParallelIterator};
use vstd::prelude::*;

verus! {

/// The orchestrator of a reduction of `1..=n`. It alone owns the in-flight
/// set and the accumulator.
pub struct WindowedReducer<T: NumericAccumulator> {
    n: u64,
    concurrency: u8,
    issued_through: u64,
    in_flight: Vec<u64>,
    accumulator: T,
}

impl<T: NumericAccumulator> View for WindowedReducer<T> {
    type V = ReducerState;

    closed spec fn view(&self) -> ReducerState {
        ReducerState {
            n: self.n,
            concurrency: self.concurrency,
            issued: self.issued_through,
            in_flight: self.in_flight@.to_set(),
            accumulator: self.accumulator.value(),
        }
    }
}

/// Removing the element at `index` from a sequence without duplicates
/// removes that element from the set of its elements.
proof fn lemma_remove_to_set(starts: Seq<u64>, index: int)
    requires
        starts.no_duplicates(),
        0 <= index < starts.len(),
    ensures
        starts.remove(index).no_duplicates(),
        starts.remove(index).to_set() == starts.to_set().remove(starts[index]),
{
    let rest = starts.remove(index);
    assert forall|s: u64| rest.to_set().contains(s) == starts.to_set().remove(starts[index]).contains(
        s,
    ) by {
        if rest.contains(s) {
            let i = choose|i: int| 0 <= i < rest.len() && rest[i] == s;
            if i < index {
                assert(starts[i] == s);
            } else {
                assert(starts[i + 1] == s);
            }
        }
        if starts.contains(s) && s != starts[index] {
            let i = choose|i: int| 0 <= i < starts.len() && starts[i] == s;
            if i < index {
                assert(rest[i] == s);
            } else {
                assert(rest[i - 1] == s);
            }
        }
    }
    assert(rest.to_set() =~= starts.to_set().remove(starts[index]));
}

impl<T: NumericAccumulator> WindowedReducer<T> {
    /// The state is one that a reduction can be in, and no start is recorded
    /// twice.
    pub closed spec fn wf(&self) -> bool {
        &&& self@.wf::<T>()
        &&& self.in_flight@.no_duplicates()
    }

    /// A well-formed reducer is in a well-formed state.
    pub proof fn lemma_wf_state(&self)
        requires
            self.wf(),
        ensures
            self@.wf::<T>(),
    {
    }

    /// A reducer for `1..=n` that has issued nothing yet.
    pub fn new(n: u64, concurrency: u8) -> (reducer: Self)
        requires
            concurrency >= 1,
        ensures
            reducer.wf(),
            reducer@ == ReducerState::initial::<T>(n, concurrency),
    {
        let reducer = WindowedReducer {
            n,
            concurrency,
            issued_through: 0,
            in_flight: Vec::new(),
            accumulator: T::from_u64(1),
        };
        proof {
            assert(reducer@.in_flight =~= Set::empty());
            lemma_initial_wf::<T>(n, concurrency);
        }
        reducer
    }

    /// The last integer to multiply.
    pub fn n(&self) -> (n: u64)
        ensures
            n == self@.n,
    {
        self.n
    }

    /// The most windows that may be in flight at once.
    pub fn concurrency(&self) -> (concurrency: u8)
        ensures
            concurrency == self@.concurrency,
    {
        self.concurrency
    }

    /// The last integer that a window was issued for; 0 before the first
    /// dispatch.
    pub fn issued_through(&self) -> (issued: u64)
        ensures
            issued == self@.issued,
    {
        self.issued_through
    }

    /// The running product.
    pub fn accumulator(&self) -> (accumulator: &T)
        ensures
            accumulator.value() == self@.accumulator,
    {
        &self.accumulator
    }

    /// The number of windows in flight.
    pub fn in_flight_count(&self) -> (count: usize)
        requires
            self.wf(),
        ensures
            count == self@.in_flight.len(),
            count <= self@.concurrency,
    {
        proof {
            self.in_flight@.unique_seq_to_set();
        }
        self.in_flight.len()
    }

    /// Whether the window that starts at `start` is in flight.
    pub fn is_in_flight(&self, start: u64) -> (found: bool)
        ensures
            found == self@.in_flight.contains(start),
    {
        self.position(start).is_some()
    }

    /// Where `start` is recorded in the in-flight list, if it is.
    fn position(&self, start: u64) -> (found: Option<usize>)
        ensures
            match found {
                Some(index) => index < self.in_flight@.len() && self.in_flight@[index as int] == start,
                None => !self@.in_flight.contains(start),
            },
    {
        let mut index: usize = 0;
        while index < self.in_flight.len()
            invariant
                index <= self.in_flight@.len(),
                forall|i: int| 0 <= i < index ==> self.in_flight@[i] != start,
            decreases self.in_flight@.len() - index,
        {
            if self.in_flight[index] == start {
                return Some(index);
            }
            index = index + 1;
        }
        None
    }

    /// Whether a window can be dispatched now.
    pub fn can_dispatch(&self) -> (possible: bool)
        requires
            self.wf(),
        ensures
            possible == self@.can_dispatch(),
    {
        proof {
            self.in_flight@.unique_seq_to_set();
        }
        self.issued_through < self.n && self.in_flight.len() < self.concurrency as usize
    }

    /// Issues the next window and records its start as in flight.
    pub fn dispatch(&mut self) -> (window: Window)
        requires
            old(self).wf(),
            old(self)@.can_dispatch(),
        ensures
            final(self).wf(),
            final(self)@ == old(self)@.dispatch(),
            window == old(self)@.next_window(),
            window.wf(),
    {
        let ghost before = self@;
        let ghost starts = self.in_flight@;
        let start: u64 = self.issued_through + 1;
        let end: u64 = if self.n - self.issued_through <= WINDOW_SIZE {
            self.n
        } else {
            self.issued_through + WINDOW_SIZE
        };
        self.in_flight.push(start);
        self.issued_through = end;
        proof {
            lemma_dispatch_wf::<T>(before);
            starts.lemma_push_to_set_commute(start);
            assert(self@.in_flight =~= before.dispatch().in_flight);
            assert(self@ == before.dispatch());
            assert(!starts.contains(start));
            assert(self.in_flight@.no_duplicates());
        }
        Window { start, end }
    }

    /// Handles one completion message. If the start of its window is in
    /// flight and the window is the one that was issued under that start,
    /// the start leaves the in-flight set and the product is folded into the
    /// accumulator. Every other message is dropped and changes nothing.
    pub fn collect(&mut self, message: CompletionMessage<T>)
        requires
            old(self).wf(),
        ensures
            final(self).wf(),
            final(self)@ == old(self)@.collect::<T>(message.window(), message.partial_value()),
    {
        let ghost before = self@;
        let ghost starts = self.in_flight@;
        let ghost value = message.partial_value();
        let (partial, window) = message.into_parts();
        proof {
            lemma_collect_wf::<T>(before, window, value);
        }
        match self.position(window.start) {
            None => {},
            Some(index) => {
                let full: bool = self.issued_through - window.start >= WINDOW_SIZE - 1;
                let expected: u64 = if full {
                    window.start + (WINDOW_SIZE - 1)
                } else {
                    self.issued_through
                };
                if window.end == expected {
                    self.in_flight.remove(index);
                    let mut folded: T = T::from_u64(1);
                    std::mem::swap(&mut folded, &mut self.accumulator);
                    self.accumulator = folded.multiply(partial);
                    proof {
                        lemma_remove_to_set(starts, index as int);
                        assert(self@.in_flight =~= before.collect::<T>(window, value).in_flight);
                        assert(self@ == before.collect::<T>(window, value));
                    }
                }
            },
        }
    }

    /// Whether everything was issued and folded.
    pub fn is_finished(&self) -> (finished: bool)
        requires
            self.wf(),
        ensures
            finished == self@.finished(),
    {
        proof {
            self.in_flight@.unique_seq_to_set();
            if self.in_flight@.len() == 0 {
                assert(self@.in_flight =~= Set::empty());
            }
        }
        self.issued_through >= self.n && self.in_flight.len() == 0
    }

    /// The product of a finished reduction: `n!`, as the numeric type holds it.
    pub fn into_accumulator(self) -> (product: T)
        requires
            self.wf(),
            self@.finished(),
        ensures
            product.value() == T::represent(factorial_of(self@.n as int)),
    {
        proof {
            lemma_finished_accumulator::<T>(self@);
        }
        self.accumulator
    }
}

/// Runs the work of every window of `windows` on the thread pool and hands
/// back the completion messages.
///
/// Trusted: the body maps [`run_window`] over the windows with rayon's
/// `par_iter`, `copied`, `map` and `collect_into_vec`. The contract claims
/// what rayon documents of an indexed parallel iterator collected into a
/// vector: there is one result for each item, and the results stand in the
/// order of the items, so the message at an index is the one that
/// [`run_window`] made for the window at that index.
#[verifier::external_body]
fn run_windows<T: NumericAccumulator + Send>(windows: &Vec<Window>) -> (messages: Vec<
    CompletionMessage<T>,
>)
    ensures
        messages@.len() == windows@.len(),
        forall|i: int|
            0 <= i < windows@.len() ==> (#[trigger] messages@[i]).window() == windows@[i],
{
    let mut messages: Vec<CompletionMessage<T>> = Vec::new();
    windows.par_iter().copied().map(run_window::<T>).collect_into_vec(&mut messages);
    messages
}

impl<T: NumericAccumulator + Send> WindowedReducer<T> {
    /// The dispatch phase: issues windows until none is left or the
    /// in-flight set is full, and returns them in the order of issue.
    fn dispatch_phase(&mut self) -> (batch: Vec<Window>)
        requires
            old(self).wf(),
            old(self)@.in_flight.len() == 0,
        ensures
            final(self).wf(),
            final(self)@.n == old(self)@.n,
            final(self)@.concurrency == old(self)@.concurrency,
            final(self)@.in_flight.len() == batch@.len(),
            batch@.len() <= final(self)@.concurrency,
            forall|i: int| 0 <= i < batch@.len() ==> final(self)@.accepts(#[trigger] batch@[i]),
            forall|i: int, j: int|
                0 <= i < j < batch@.len() ==> (#[trigger] batch@[i]).start != (
                #[trigger] batch@[j]).start,
            old(self)@.can_dispatch() ==> final(self)@.issued > old(self)@.issued,
    {
        let ghost before = self@;
        let mut batch: Vec<Window> = Vec::new();
        while self.can_dispatch()
            invariant
                self.wf(),
                self@.n == before.n,
                self@.concurrency == before.concurrency,
                self@.issued >= before.issued,
                batch@.len() == 0 ==> self@ == before,
                batch@.len() > 0 ==> self@.issued > before.issued,
                self@.in_flight.len() == batch@.len(),
                forall|i: int| 0 <= i < batch@.len() ==> self@.accepts(#[trigger] batch@[i]),
                forall|i: int, j: int|
                    0 <= i < j < batch@.len() ==> (#[trigger] batch@[i]).start != (
                    #[trigger] batch@[j]).start,
            decreases self@.n - self@.issued,
        {
            let ghost state = self@;
            let ghost issued = batch@;
            proof {
                self.lemma_wf_state();
                lemma_dispatch_wf::<T>(state);
            }
            let window = self.dispatch();
            batch.push(window);
            proof {
                assert forall|i: int| 0 <= i < issued.len() implies self@.accepts(
                    #[trigger] batch@[i],
                ) && batch@[i].start != window.start by {
                    assert(batch@[i] == issued[i]);
                    lemma_dispatch_keeps_accepted::<T>(state, issued[i]);
                }
            }
        }
        proof {
            self.lemma_wf_state();
        }
        batch
    }

    /// The collect phase: handles the completion messages of the windows in
    /// flight, one at a time, until none is in flight.
    fn collect_phase(&mut self, messages: Vec<CompletionMessage<T>>)
        requires
            old(self).wf(),
            old(self)@.in_flight.len() == messages@.len(),
            forall|i: int|
                0 <= i < messages@.len() ==> old(self)@.accepts((#[trigger] messages@[i]).window()),
            forall|i: int, j: int|
                0 <= i < j < messages@.len() ==> (#[trigger] messages@[i]).window().start != (
                #[trigger] messages@[j]).window().start,
        ensures
            final(self).wf(),
            final(self)@.n == old(self)@.n,
            final(self)@.concurrency == old(self)@.concurrency,
            final(self)@.issued == old(self)@.issued,
            final(self)@.in_flight.len() == 0,
    {
        let ghost before = self@;
        let mut messages = messages;
        while messages.len() > 0
            invariant
                self.wf(),
                self@.n == before.n,
                self@.concurrency == before.concurrency,
                self@.issued == before.issued,
                self@.in_flight.len() == messages@.len(),
                forall|i: int|
                    0 <= i < messages@.len() ==> self@.accepts((#[trigger] messages@[i]).window()),
                forall|i: int, j: int|
                    0 <= i < j < messages@.len() ==> (#[trigger] messages@[i]).window().start != (
                    #[trigger] messages@[j]).window().start,
            decreases messages@.len(),
        {
            let ghost state = self@;
            let ghost waiting = messages@;
            proof {
                self.lemma_wf_state();
            }
            match messages.pop() {
                None => {},
                Some(message) => {
                    assert(message == waiting[waiting.len() - 1]);
                    assert(state.accepts(message.window()));
                    self.collect(message);
                    proof {
                        assert forall|i: int| 0 <= i < messages@.len() implies self@.accepts(
                            (#[trigger] messages@[i]).window(),
                        ) by {
                            assert(messages@[i] == waiting[i]);
                            assert(state.accepts(waiting[i].window()));
                        }
                    }
                },
            }
        }
    }

    /// Multiplies `1..=n` with at most `concurrency` windows in flight at
    /// any time, and returns `n!` as the numeric type holds it.
    ///
    /// Each round fills the in-flight set in the dispatch phase, has the
    /// windows in flight worked on in parallel, and folds their products in
    /// the collect phase.
    pub fn reduce(n: u64, concurrency: u8) -> (product: T)
        requires
            concurrency >= 1,
        ensures
            product.value() == T::represent(factorial_of(n as int)),
    {
        let mut reducer: WindowedReducer<T> = WindowedReducer::new(n, concurrency);
        while !reducer.is_finished()
            invariant
                reducer.wf(),
                reducer@.n == n,
                reducer@.concurrency == concurrency,
                concurrency >= 1,
                reducer@.in_flight.len() == 0,
            decreases n - reducer@.issued,
        {
            proof {
                reducer.lemma_wf_state();
                if reducer@.issued >= n {
                    reducer@.in_flight.lemma_len0_is_empty();
                }
            }
            let batch = reducer.dispatch_phase();
            let messages = run_windows::<T>(&batch);
            reducer.collect_phase(messages);
        }
        reducer.into_accumulator()
    }
}

} // verus!
