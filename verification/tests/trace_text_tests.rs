use cryputil::algorithms::ecc::{add, Point};
use cryputil::algorithms::{caesar, diffie_hellman, rsa, substitution};
use cryputil::error::CalcError;
use cryputil::math::mod_inv;

fn titles(t: &cryputil::trace::Trace) -> Vec<String> {
    t.steps.iter().map(|s| s.title.clone()).collect()
}

#[test]
fn inverse_error_names_the_gcd() {
    match mod_inv(4, 8) {
        Err(CalcError::KeinInverses(m)) => assert_eq!(m, "gcd(4, 8) = 4 ≠ 1"),
        other => panic!("unexpected {:?}", other),
    }
}

#[test]
fn undefined_point_addition_names_the_denominator() {
    match add(Point::Affine(1, 1), Point::Affine(4, 2), 0, 9) {
        Err(CalcError::KeinInverses(m)) => assert_eq!(m, "gcd(3, 9) = 3 ≠ 1"),
        other => panic!("unexpected {:?}", other),
    }
}

#[test]
fn caesar_trace_shows_each_step() {
    let t = caesar::encrypt("Hallo", 29).unwrap();
    assert_eq!(
        titles(&t),
        vec![
            "Verschiebung normalisieren",
            "Mapping (Klartext → Chiffrat)",
            "Zeichenweise Substitution"
        ]
    );
    assert_eq!(t.steps[0].lines, vec!["k = 29 mod 26 = 3"]);
    assert_eq!(t.steps[1].lines[1], "Chiffrat: D E F G H I J K L M N O P Q R S T U V W X Y Z A B C");
    assert_eq!(t.steps[2].lines, vec!["Resultat: Kdoor"]);
    let tb = t.steps[1].table.as_ref().unwrap();
    assert_eq!(tb.rows[25], vec!["Z", "25", "(25 + 3) mod 26 = 2", "C"]);
}

#[test]
fn rsa_trace_shows_the_power() {
    let t = rsa::encrypt(33, 3, 4).unwrap();
    assert_eq!(titles(&t), vec!["Chiffrat berechnen"]);
    assert_eq!(t.steps[0].lines, vec!["c = m^e mod n = 4^3 mod 33 = 31"]);
}

#[test]
fn diffie_hellman_trace_shows_both_keys() {
    let t = diffie_hellman::key_exchange(23, 5, 6, 15).unwrap();
    assert_eq!(t.steps[0].lines, vec!["A = g^a mod p = 8", "B = g^b mod p = 19"]);
    assert_eq!(t.steps[1].lines, vec!["K_A = B^a mod p = 2", "K_B = A^b mod p = 2"]);
}

#[test]
fn substitution_refuses_a_repeated_letter() {
    let key = "AACDEFGHIJKLMNOPQRSTUVWXYZ";
    match substitution::encrypt("abc", key) {
        Err(CalcError::UngueltigeEingabe(m)) => {
            assert_eq!(m, "Buchstabe 'A' kommt mehrfach im Schlüssel vor")
        },
        other => panic!("unexpected {:?}", other.map(|t| t.algorithm)),
    }
}
