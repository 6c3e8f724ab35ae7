use big_factorial::{factorial, parallel_factorial, BigNat, ConfigError, NumericAccumulator};
use malachite::Natural;

fn parallel_fac(n: u32) -> u128 {
    parallel_factorial::<u128>(u64::from(n), 4).unwrap()
}

fn fac(n: u128) -> u128 {
    (1..=n).product()
}

fn oracle(n: u64) -> Natural {
    let mut product = Natural::from(1u32);
    for i in 1..=n {
        product *= Natural::from(i);
    }
    product
}

fn natural(number: BigNat) -> Natural {
    Natural::from_owned_limbs_asc(number.into_limbs())
}

#[test]
fn test_fac_zero() {
    assert_eq!(parallel_fac(0), 1)
}

#[test]
fn test_fac_one() {
    assert_eq!(parallel_fac(1), 1);
}

#[test]
fn test_fac_small() {
    assert_eq!(parallel_fac(2), 2);
    assert_eq!(parallel_fac(3), 6);
    assert_eq!(parallel_fac(4), 24);
    assert_eq!(parallel_fac(5), 120);
}

// all numbers that don't overflow u128s
#[test]
fn test_fac_large() {
    for i in 6..35 {
        println!("calculating fac of {i}");
        assert_eq!(parallel_fac(i), fac(u128::from(i)))
    }
}

#[test]
fn sequential_small_values() {
    assert_eq!(factorial::<u64>(4), 24);
    assert_eq!(factorial::<u128>(5), 120);
    assert_eq!(factorial::<u64>(20), 2432902008176640000);
    assert_eq!(factorial::<u128>(34), 295232799039604140847618609643520000000);
}

#[test]
fn identity_law() {
    assert_eq!(factorial::<u64>(0), 1);
    assert_eq!(factorial::<u64>(1), 1);
    assert_eq!(factorial::<u128>(0), 1);
    assert_eq!(factorial::<u128>(1), 1);
    assert_eq!(factorial::<BigNat>(0).into_limbs(), vec![1]);
    assert_eq!(factorial::<BigNat>(1).into_limbs(), vec![1]);
}

#[test]
fn scenario_zero_with_one_worker() {
    assert_eq!(parallel_factorial::<u128>(0, 1), Ok(1));
}

#[test]
fn scenario_one_with_four_workers() {
    assert_eq!(parallel_factorial::<u128>(1, 4), Ok(1));
}

#[test]
fn scenario_five_with_eight_workers() {
    assert_eq!(parallel_factorial::<u128>(5, 8), Ok(120));
}

#[test]
fn scenario_ten_with_three_workers() {
    assert_eq!(parallel_factorial::<u128>(10, 3), Ok(3628800));
}

#[test]
fn scenario_twenty_with_one_and_eight_workers() {
    assert_eq!(parallel_factorial::<u128>(20, 1), Ok(2432902008176640000));
    assert_eq!(parallel_factorial::<u128>(20, 8), Ok(2432902008176640000));
}

#[test]
fn parallel_matches_sequential_and_oracle() {
    for n in 0..=40u64 {
        let expected = oracle(n);
        assert_eq!(natural(factorial::<BigNat>(n)), expected);
        for concurrency in [1u8, 2, 4, 8] {
            let product = parallel_factorial::<BigNat>(n, concurrency).unwrap();
            assert_eq!(natural(product), expected);
        }
    }
}

#[test]
fn factorial_step() {
    for n in 1..=34u64 {
        let step = u128::from_u64(n).multiply(factorial::<u128>(n - 1));
        assert_eq!(factorial::<u128>(n), step);
    }
    for n in 1..=60u64 {
        let step = BigNat::from_u64(n).multiply(factorial::<BigNat>(n - 1));
        assert_eq!(natural(factorial::<BigNat>(n)), natural(step));
    }
}

#[test]
fn concurrency_invariance() {
    for n in [0u64, 1, 2, 17, 33, 34] {
        assert_eq!(parallel_factorial::<u128>(n, 1), parallel_factorial::<u128>(n, 8));
    }
    let one = natural(parallel_factorial::<BigNat>(25_000, 1).unwrap());
    let eight = natural(parallel_factorial::<BigNat>(25_000, 8).unwrap());
    let most = natural(parallel_factorial::<BigNat>(25_000, 255).unwrap());
    assert_eq!(one, eight);
    assert_eq!(one, most);
}

#[test]
fn one_less_than_a_window() {
    let expected = oracle(9_999);
    assert_eq!(natural(parallel_factorial::<BigNat>(9_999, 2).unwrap()), expected);
    assert_eq!(natural(factorial::<BigNat>(9_999)), expected);
}

#[test]
fn exactly_one_window() {
    let expected = oracle(10_000);
    assert_eq!(natural(parallel_factorial::<BigNat>(10_000, 2).unwrap()), expected);
    assert_eq!(natural(factorial::<BigNat>(10_000)), expected);
}

#[test]
fn one_more_than_a_window() {
    let expected = oracle(10_001);
    assert_eq!(natural(parallel_factorial::<BigNat>(10_001, 2).unwrap()), expected);
    assert_eq!(natural(parallel_factorial::<BigNat>(10_001, 1).unwrap()), expected);
}

#[test]
fn several_windows() {
    let expected = oracle(30_001);
    assert_eq!(natural(parallel_factorial::<BigNat>(30_001, 2).unwrap()), expected);
    assert_eq!(natural(parallel_factorial::<BigNat>(30_001, 3).unwrap()), expected);
}

#[test]
fn zero_concurrency_is_rejected() {
    assert_eq!(parallel_factorial::<u128>(5, 0), Err(ConfigError::ZeroConcurrency));
    assert_eq!(parallel_factorial::<u64>(0, 0), Err(ConfigError::ZeroConcurrency));
    assert!(parallel_factorial::<BigNat>(20_000, 0).is_err());
    assert_eq!(ConfigError::ZeroConcurrency.describe(), "the concurrency limit must be at least 1");
}

#[test]
fn fixed_width_results_wrap() {
    assert_eq!(factorial::<u64>(21), 14197454024290336768);
    assert_eq!(factorial::<u64>(25), 7034535277573963776);
    assert_eq!(factorial::<u64>(65), 9223372036854775808);
    assert_eq!(factorial::<u64>(66), 0);
    assert_eq!(factorial::<u128>(35), 124676958757991025765413114570153656320);
    assert_eq!(parallel_factorial::<u64>(21, 3), Ok(14197454024290336768));
    assert_eq!(parallel_factorial::<u128>(35, 3), Ok(124676958757991025765413114570153656320));
}
