use rust_examples::parallel::{is_prime, primes_below, sum_numbers_below};

#[test]
fn is_prime_values() {
    assert!(is_prime(0));
    assert!(is_prime(1));
    assert!(is_prime(2));
    assert!(is_prime(3));
    assert!(!is_prime(4));
    assert!(is_prime(97));
    assert!(!is_prime(91));
    assert!(!is_prime(1000));
    assert!(is_prime(7919));
}

#[test]
fn sum_numbers_below_values() {
    assert_eq!(0, sum_numbers_below(0));
    assert_eq!(0, sum_numbers_below(1));
    assert_eq!(45, sum_numbers_below(10));
    assert_eq!(4_999_950_000, sum_numbers_below(100_000));
}

#[test]
fn primes_below_values() {
    assert_eq!(vec![0, 1, 2, 3, 5, 7, 11, 13, 17, 19], primes_below(20));
    assert_eq!(170, primes_below(1000).len());
    assert!(primes_below(0).is_empty());
}
