use big_factorial::{run_window, BigNat, CompletionMessage, Window, WindowedReducer};
use malachite::Natural;

fn oracle(n: u64) -> Natural {
    let mut product = Natural::from(1u32);
    for i in 1..=n {
        product *= Natural::from(i);
    }
    product
}

#[test]
fn new_reducer_has_issued_nothing() {
    let reducer = WindowedReducer::<u128>::new(25_000, 3);
    assert_eq!(reducer.n(), 25_000);
    assert_eq!(reducer.concurrency(), 3);
    assert_eq!(reducer.issued_through(), 0);
    assert_eq!(reducer.in_flight_count(), 0);
    assert_eq!(*reducer.accumulator(), 1);
    assert!(reducer.can_dispatch());
    assert!(!reducer.is_finished());
}

#[test]
fn nothing_to_do_for_zero() {
    let reducer = WindowedReducer::<u128>::new(0, 1);
    assert!(!reducer.can_dispatch());
    assert!(reducer.is_finished());
    assert_eq!(reducer.into_accumulator(), 1);
}

#[test]
fn windows_are_issued_in_ascending_order() {
    let mut reducer = WindowedReducer::<u64>::new(25_000, 8);
    assert_eq!(reducer.dispatch(), Window { start: 1, end: 10_000 });
    assert_eq!(reducer.issued_through(), 10_000);
    assert_eq!(reducer.dispatch(), Window { start: 10_001, end: 20_000 });
    assert_eq!(reducer.dispatch(), Window { start: 20_001, end: 25_000 });
    assert_eq!(reducer.issued_through(), 25_000);
    assert_eq!(reducer.in_flight_count(), 3);
    assert!(reducer.is_in_flight(1));
    assert!(reducer.is_in_flight(10_001));
    assert!(reducer.is_in_flight(20_001));
    assert!(!reducer.is_in_flight(2));
    assert!(!reducer.can_dispatch());
    assert!(!reducer.is_finished());
}

#[test]
fn small_n_is_one_window() {
    let mut reducer = WindowedReducer::<u128>::new(20, 4);
    assert_eq!(reducer.dispatch(), Window { start: 1, end: 20 });
    assert!(!reducer.can_dispatch());
    reducer.collect(run_window(Window { start: 1, end: 20 }));
    assert!(reducer.is_finished());
    assert_eq!(reducer.into_accumulator(), 2432902008176640000);
}

#[test]
fn a_full_window_is_the_last_when_n_is_a_multiple() {
    let mut reducer = WindowedReducer::<u64>::new(20_000, 4);
    assert_eq!(reducer.dispatch(), Window { start: 1, end: 10_000 });
    assert_eq!(reducer.dispatch(), Window { start: 10_001, end: 20_000 });
    assert!(!reducer.can_dispatch());
}

#[test]
fn the_top_of_the_range_does_not_overflow() {
    let mut reducer = WindowedReducer::<u64>::new(u64::MAX, 1);
    let first = reducer.dispatch();
    assert_eq!(first, Window { start: 1, end: 10_000 });
    assert_eq!(reducer.issued_through(), 10_000);
    assert!(!reducer.can_dispatch());
}

#[test]
fn in_flight_never_exceeds_concurrency() {
    for concurrency in [1u8, 2, 3, 8] {
        let mut reducer = WindowedReducer::<BigNat>::new(25_000, concurrency);
        let mut pending: Vec<Window> = Vec::new();
        let mut most: usize = 0;
        while !reducer.is_finished() {
            while reducer.can_dispatch() {
                pending.push(reducer.dispatch());
                assert!(reducer.in_flight_count() <= usize::from(concurrency));
                assert_eq!(reducer.in_flight_count(), pending.len());
                most = most.max(reducer.in_flight_count());
            }
            let window = pending.pop().unwrap();
            reducer.collect(run_window(window));
            assert!(reducer.in_flight_count() < usize::from(concurrency));
        }
        assert_eq!(most, usize::from(concurrency).min(3));
        let product = Natural::from_owned_limbs_asc(reducer.into_accumulator().into_limbs());
        assert_eq!(product, oracle(25_000));
    }
}

#[test]
fn a_concurrency_of_one_is_sequential() {
    let mut reducer = WindowedReducer::<u64>::new(30_000, 1);
    let mut issued: Vec<Window> = Vec::new();
    while !reducer.is_finished() {
        let window = reducer.dispatch();
        assert_eq!(reducer.in_flight_count(), 1);
        assert!(!reducer.can_dispatch());
        reducer.collect(run_window(window));
        assert_eq!(reducer.in_flight_count(), 0);
        issued.push(window);
    }
    assert_eq!(
        issued,
        vec![
            Window { start: 1, end: 10_000 },
            Window { start: 10_001, end: 20_000 },
            Window { start: 20_001, end: 30_000 },
        ]
    );
}

#[test]
fn fold_order_does_not_matter() {
    let mut ascending = WindowedReducer::<BigNat>::new(32_500, 4);
    let mut descending = WindowedReducer::<BigNat>::new(32_500, 4);
    let mut windows: Vec<Window> = Vec::new();
    while ascending.can_dispatch() {
        windows.push(ascending.dispatch());
        descending.dispatch();
    }
    assert_eq!(windows.len(), 4);
    for window in windows.iter() {
        ascending.collect(run_window(*window));
    }
    for window in windows.iter().rev() {
        descending.collect(run_window(*window));
    }
    assert!(ascending.is_finished());
    assert!(descending.is_finished());
    let first = Natural::from_owned_limbs_asc(ascending.into_accumulator().into_limbs());
    let second = Natural::from_owned_limbs_asc(descending.into_accumulator().into_limbs());
    assert_eq!(first, second);
    assert_eq!(first, oracle(32_500));
}

#[test]
fn a_duplicate_message_is_ignored() {
    let mut reducer = WindowedReducer::<u128>::new(25, 2);
    let window = reducer.dispatch();
    assert_eq!(window, Window { start: 1, end: 25 });
    let first: CompletionMessage<u128> = run_window(window);
    let duplicate: CompletionMessage<u128> = run_window(window);
    reducer.collect(first);
    let folded = *reducer.accumulator();
    assert_eq!(folded, 15511210043330985984000000);
    assert_eq!(reducer.in_flight_count(), 0);
    reducer.collect(duplicate);
    assert_eq!(*reducer.accumulator(), folded);
    assert_eq!(reducer.in_flight_count(), 0);
    assert!(reducer.is_finished());
    assert_eq!(reducer.into_accumulator(), folded);
}

#[test]
fn a_duplicate_message_is_ignored_while_others_are_in_flight() {
    let mut reducer = WindowedReducer::<u64>::new(25_000, 3);
    let first = reducer.dispatch();
    let second = reducer.dispatch();
    reducer.collect(run_window(first));
    let folded = *reducer.accumulator();
    reducer.collect(run_window(first));
    assert_eq!(*reducer.accumulator(), folded);
    assert_eq!(reducer.in_flight_count(), 1);
    assert!(reducer.is_in_flight(second.start));
    assert!(!reducer.is_in_flight(first.start));
}

#[test]
fn a_stray_message_is_ignored() {
    let mut reducer = WindowedReducer::<u128>::new(25_000, 2);
    reducer.collect(run_window(Window { start: 1, end: 10_000 }));
    assert_eq!(*reducer.accumulator(), 1);
    assert_eq!(reducer.in_flight_count(), 0);
    let window = reducer.dispatch();
    reducer.collect(run_window(Window { start: 7, end: 9 }));
    reducer.collect(run_window(Window { start: 10_001, end: 20_000 }));
    assert_eq!(*reducer.accumulator(), 1);
    assert_eq!(reducer.in_flight_count(), 1);
    assert!(reducer.is_in_flight(window.start));
}

#[test]
fn a_message_for_another_window_under_the_same_start_is_ignored() {
    let mut reducer = WindowedReducer::<u128>::new(25_000, 2);
    let window = reducer.dispatch();
    reducer.collect(run_window(Window { start: window.start, end: 5 }));
    assert_eq!(*reducer.accumulator(), 1);
    assert!(reducer.is_in_flight(window.start));
    reducer.collect(run_window(window));
    assert!(!reducer.is_in_flight(window.start));
}

#[test]
fn reduce_gives_the_factorial() {
    assert_eq!(WindowedReducer::<u128>::reduce(0, 1), 1);
    assert_eq!(WindowedReducer::<u128>::reduce(10, 3), 3628800);
    assert_eq!(WindowedReducer::<u64>::reduce(20, 255), 2432902008176640000);
    let product = Natural::from_owned_limbs_asc(WindowedReducer::<BigNat>::reduce(21_000, 2).into_limbs());
    assert_eq!(product, oracle(21_000));
}
