use cryputil::analysis::{bsgs, columnar_transposition, frequency_analysis};
use cryputil::math::mod_pow;

#[test]
fn test_prime_length() {
    let t = columnar_transposition::decrypt("HELLO").unwrap();
    assert!(t.result.iter().any(|(k, _)| k == "Hinweis"));
}

#[test]
fn columnar_transposition_test_roundtrip() {
    let cipher = "WIDIPIKEA";
    let t = columnar_transposition::decrypt(cipher).unwrap();
    let cand = t
        .result
        .iter()
        .find(|(k, _)| k == "Kandidat (3 Spalten)")
        .unwrap()
        .1
        .clone();
    assert_eq!(cand, "WIKIPEDIA");
}

#[test]
fn test_multiple_divisors() {
    let t = columnar_transposition::decrypt("ABCDEFGH").unwrap();
    let count = t.result.iter().filter(|(k, _)| k.starts_with("Kandidat")).count();
    assert_eq!(count, 2);
}

#[test]
fn test_bsgs() {
    let t = bsgs::solve(5, 8, 23).unwrap();
    let x: i128 = t.result[0].1.parse().unwrap();
    assert_eq!(mod_pow(5, x, 23).unwrap(), 8);
}

#[test]
fn test_skewed_german_suggests_e() {
    let t = frequency_analysis::analyze("XXXXXXXXXY", "de").unwrap();
    let result = &t.result[0].1;
    assert!(result.starts_with("EEEEEEEEE"));
}

#[test]
fn test_unknown_language() {
    assert!(frequency_analysis::analyze("ABC", "xx").is_err());
}

#[test]
fn test_empty_letters() {
    assert!(frequency_analysis::analyze("123!@#", "de").is_err());
}

#[test]
fn test_preserves_punctuation() {
    let t = frequency_analysis::analyze("AAA, BBB", "en").unwrap();
    assert!(t.result[0].1.contains(','));
}

fn share_row(a: usize, b: usize) -> String {
    let text = format!("{}{}", "A".repeat(a), "B".repeat(b));
    let t = frequency_analysis::analyze(&text, "de").unwrap();
    let rows = &t.steps[0].table.as_ref().unwrap().rows;
    rows.iter().find(|r| r[0] == "A").unwrap()[2].clone()
}

#[test]
fn shares_are_shown_as_the_double_is_formatted() {
    assert_eq!(share_row(3, 19997), "0.01");
    assert_eq!(share_row(1, 799), "0.12");
    assert_eq!(share_row(1, 7), "12.50");
    assert_eq!(share_row(2, 1), "66.67");
    for (a, b) in [(3usize, 19997usize), (1, 799), (1, 7), (2, 1), (1, 2), (5, 3), (7, 993), (3, 397), (9, 191), (1, 0), (13, 2987), (21, 1979)] {
        let total = (a + b) as f64;
        assert_eq!(share_row(a, b), format!("{:.2}", a as f64 * 100.0 / total), "{} {}", a, b);
    }
}
