use cryputil::algorithms::ecc::{add, Point};
use cryputil::algorithms::{
    caesar, diffie_hellman, elgamal_signature, paillier, rsa, rsa_signature, substitution,
};

fn find<'a>(r: &'a [(String, String)], prefix: &str) -> &'a str {
    &r.iter().find(|(k, _)| k.starts_with(prefix)).unwrap().1
}

#[test]
fn test_ec_add() {
    let r = add(Point::Affine(3, 10), Point::Affine(9, 7), 1, 23).unwrap();
    assert!(matches!(r, Point::Affine(_, _)));
}

#[test]
fn test_rsa_roundtrip() {
    let kg = rsa::keygen(11, 13, 7).unwrap();
    assert!(kg.result.iter().any(|r| r.0.contains("Privater")));
    let enc = rsa::encrypt(143, 7, 9).unwrap();
    let c: i128 = enc.result[0].1.parse().unwrap();
    let dec = rsa::decrypt(143, 103, c).unwrap();
    assert_eq!(dec.result[0].1, "9");
}

#[test]
fn test_known_shift_3() {
    let enc = caesar::encrypt("HELLO", 3).unwrap();
    assert_eq!(enc.result[0].1, "KHOOR");
}

#[test]
fn caesar_test_roundtrip() {
    let enc = caesar::encrypt("Die Sonne scheint!", 7).unwrap();
    let c = enc.result[0].1.clone();
    let dec = caesar::decrypt(&c, 7).unwrap();
    assert_eq!(dec.result[0].1, "Die Sonne scheint!");
}

#[test]
fn test_negative_shift() {
    let a = caesar::encrypt("HALLO", 3).unwrap();
    let b = caesar::encrypt("HALLO", -23).unwrap();
    assert_eq!(a.result[0].1, b.result[0].1);
}

#[test]
fn test_large_shift() {
    let a = caesar::encrypt("HALLO", 3).unwrap();
    let b = caesar::encrypt("HALLO", 29).unwrap();
    assert_eq!(a.result[0].1, b.result[0].1);
}

#[test]
fn test_preserves_case_and_punctuation() {
    let enc = caesar::encrypt("Hi, World!", 5).unwrap();
    let s = &enc.result[0].1;
    let chars: Vec<char> = s.chars().collect();
    assert!(chars[0].is_ascii_uppercase());
    assert!(chars[1].is_ascii_lowercase());
    assert!(s.contains(','));
    assert!(s.contains('!'));
}

#[test]
fn test_zero_shift_identity() {
    let enc = caesar::encrypt("ABC xyz!", 0).unwrap();
    assert_eq!(enc.result[0].1, "ABC xyz!");
}

#[test]
fn test_dh() {
    let t = diffie_hellman::key_exchange(23, 5, 6, 15).unwrap();
    assert_eq!(t.result[0].1, "2");
}

#[test]
fn elgamal_signature_test_sign_verify_roundtrip() {
    let p = 467i128;
    let g = 2i128;
    let d = 127i128;
    let m = 100i128;
    let k = 213i128;
    let sig = elgamal_signature::sign(p, g, d, m, k).unwrap();
    let r: i128 = sig.result.iter().find(|(k, _)| k == "r").unwrap().1.parse().unwrap();
    let s: i128 = sig.result.iter().find(|(k, _)| k == "s").unwrap().1.parse().unwrap();
    let e: i128 = find(&sig.result, "e ").parse().unwrap();
    let v = elgamal_signature::verify(p, g, e, m, r, s).unwrap();
    assert_eq!(find(&v.result, "Signatur gültig"), "true");
}

#[test]
fn test_keygen_small() {
    let t = paillier::keygen(5, 7).unwrap();
    assert!(t
        .result
        .iter()
        .any(|(k, v)| k.contains("Öffentlicher") && v.contains("35") && v.contains("36")));
    assert!(t
        .result
        .iter()
        .any(|(k, v)| k.contains("Privater") && v.contains("12") && v.contains("3")));
}

#[test]
fn paillier_test_roundtrip() {
    let m = 10i128;
    let r = 4i128;
    let enc = paillier::encrypt(35, 36, m, r).unwrap();
    let c: i128 = enc.result[0].1.parse().unwrap();
    let dec = paillier::decrypt(35, 12, 3, c).unwrap();
    assert_eq!(dec.result[0].1, m.to_string());
}

#[test]
fn paillier_test_rejects_bad_random() {
    assert!(paillier::encrypt(35, 36, 4, 7).is_err());
}

#[test]
fn test_rejects_m_out_of_range() {
    assert!(paillier::encrypt(35, 36, 35, 4).is_err());
}

#[test]
fn test_rejects_equal_primes() {
    assert!(paillier::keygen(7, 7).is_err());
}

#[test]
fn rsa_signature_test_sign_verify_roundtrip() {
    let n = 143i128;
    let e = 7i128;
    let d = 103i128;
    let m = 42i128;
    let sig = rsa_signature::sign(n, d, m).unwrap();
    let s: i128 = sig.result[0].1.parse().unwrap();
    let v = rsa_signature::verify(n, e, m, s).unwrap();
    assert_eq!(find(&v.result, "Signatur gültig"), "true");
}

#[test]
fn test_invalid_signature() {
    let v = rsa_signature::verify(143, 7, 42, 12).unwrap();
    assert_eq!(find(&v.result, "Signatur gültig"), "false");
}

const KEY: &str = "QWERTZUIOPASDFGHJKLYXCVBNM";

#[test]
fn substitution_test_roundtrip() {
    let enc = substitution::encrypt("HALLO WELT", KEY).unwrap();
    let c = enc.result[0].1.clone();
    let dec = substitution::decrypt(&c, KEY).unwrap();
    assert_eq!(dec.result[0].1, "HALLO WELT");
}

#[test]
fn test_preserves_non_letters() {
    let enc = substitution::encrypt("AB, CD!", KEY).unwrap();
    assert!(enc.result[0].1.contains(','));
    assert!(enc.result[0].1.contains('!'));
}

#[test]
fn test_rejects_short_key() {
    assert!(substitution::encrypt("ABC", "ABC").is_err());
}

#[test]
fn test_rejects_duplicate_letters() {
    assert!(substitution::encrypt("ABC", "AAERTZUIOPSDFGHJKLYXCVBNMW").is_err());
}

#[test]
fn test_case_preserved() {
    let enc = substitution::encrypt("Ab", KEY).unwrap();
    let result = &enc.result[0].1;
    let chars: Vec<char> = result.chars().collect();
    assert!(chars[0].is_ascii_uppercase());
    assert!(chars[1].is_ascii_lowercase());
}
