use cryputil::math::{euler_phi, gcd, is_prime, mod_inv, mod_pow};

#[test]
fn test_gcd() {
    assert_eq!(gcd(12, 18), 6);
    assert_eq!(gcd(17, 31), 1);
}

#[test]
fn test_mod_inv() {
    assert_eq!(mod_inv(3, 11).unwrap(), 4);
    assert!(mod_inv(2, 4).is_err());
}

#[test]
fn test_mod_pow() {
    assert_eq!(mod_pow(5, 3, 13).unwrap(), 8);
    assert_eq!(mod_pow(2, 10, 1000).unwrap(), 24);
}

#[test]
fn test_is_prime() {
    assert!(is_prime(2));
    assert!(is_prime(23));
    assert!(!is_prime(21));
}

#[test]
fn test_phi() {
    assert_eq!(euler_phi(10), 4);
    assert_eq!(euler_phi(13), 12);
}
