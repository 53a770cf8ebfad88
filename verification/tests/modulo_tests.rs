use cryputil::modulo::{inverse_additive, inverse_multiplicative};

#[test]
fn test_additive_inverse() {
    let t = inverse_additive::additive_inverse(3, 7).unwrap();
    assert_eq!(t.result[0].1, "4");
}

#[test]
fn test_inverse() {
    let t = inverse_multiplicative::multiplicative_inverse(3, 11).unwrap();
    assert_eq!(t.result[0].1, "4");
}

#[test]
fn test_no_inverse() {
    assert!(inverse_multiplicative::multiplicative_inverse(2, 4).is_err());
}
