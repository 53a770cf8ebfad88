use cryputil::algorithms::{
    caesar, diffie_hellman, elgamal, fiat_shamir, paillier, rsa, rsa_signature, shamir_three_pass,
    substitution,
};
use cryputil::algorithms::ecc::{add, scalar_mul, Point};
use cryputil::analysis::pollard_rho_dlog;
use cryputil::analysis::{columnar_transposition, fermat_factorization, pollard_rho_factor};
use cryputil::math::{euler_phi, ext_gcd, factorize, gcd, mod_inv, mod_pow, rem_euclid};
use cryputil::modulo::inverse_additive;
use cryputil::playbooks::{elgamal_mult_homomorph, paillier_add_homomorph};

fn find(r: &[(String, String)], prefix: &str) -> String {
    r.iter().find(|(k, _)| k.starts_with(prefix)).unwrap().1.clone()
}

fn pair(s: &str) -> (i128, i128) {
    let t = s.trim_start_matches('(').trim_end_matches(')');
    let mut it = t.split(", ");
    (it.next().unwrap().parse().unwrap(), it.next().unwrap().parse().unwrap())
}

#[test]
fn bezout_identity_holds() {
    let (g, x, y) = ext_gcd(240, 46);
    assert_eq!(g, 2);
    assert_eq!(240 * x + 46 * y, 2);
    assert_eq!(gcd(-12, 18), 6);
}

#[test]
fn inverse_multiplies_to_one() {
    let v = mod_inv(17, 3120).unwrap();
    assert_eq!(v, 2753);
    assert_eq!(rem_euclid(17 * v, 3120), 1);
}

#[test]
fn phi_of_prime_is_one_less() {
    assert_eq!(euler_phi(101), 100);
    assert_eq!(euler_phi(1), 1);
}

#[test]
fn product_of_two_primes_factors_into_them() {
    assert_eq!(factorize(143), vec![(11, 1), (13, 1)]);
    assert_eq!(factorize(360), vec![(2, 3), (3, 2), (5, 1)]);
}

#[test]
fn additive_inverse_sums_to_zero() {
    let t = inverse_additive::additive_inverse(-5, 12).unwrap();
    let inv: i128 = t.result[0].1.parse().unwrap();
    assert_eq!(inv, 5);
    assert_eq!(rem_euclid(-5 + inv, 12), 0);
}

#[test]
fn caesar_decrypt_undoes_encrypt_for_any_shift() {
    for shift in [-100i128, -1, 13, 26, 1000] {
        let c = caesar::encrypt("Zebra, Äpfel & 42!", shift).unwrap().result[0].1.clone();
        assert_eq!(caesar::decrypt(&c, shift).unwrap().result[0].1, "Zebra, Äpfel & 42!");
    }
}

#[test]
fn substitution_decrypt_undoes_encrypt() {
    let key = "ZYXWVUTSRQPONMLKJIHGFEDCBA";
    let c = substitution::encrypt("Hallo, Welt!", key).unwrap().result[0].1.clone();
    assert_eq!(c, "Szool, Dvog!");
    assert_eq!(substitution::decrypt(&c, key).unwrap().result[0].1, "Hallo, Welt!");
}

#[test]
fn transposition_recovers_every_column_count() {
    let t = columnar_transposition::decrypt("ACEBDF").unwrap();
    assert_eq!(find(&t.result, "Kandidat (2 Spalten)"), "ABCDEF");
}

#[test]
fn diffie_hellman_parties_agree() {
    let t = diffie_hellman::key_exchange(23, 5, 6, 15).unwrap();
    // A = 5^6 mod 23 = 8, B = 5^15 mod 23 = 19; K = B^a = A^b = 2
    assert_eq!(mod_pow(19, 6, 23).unwrap(), 2);
    assert_eq!(mod_pow(8, 15, 23).unwrap(), 2);
    assert_eq!(t.result[0].1, "2");
}

#[test]
fn fiat_shamir_honest_round_is_accepted() {
    for e in [0i128, 1] {
        let t = fiat_shamir::round(77, 9, 5, e).unwrap();
        assert_eq!(find(&t.result, "Akzeptiert"), "true");
    }
}

#[test]
fn fermat_factors_multiply_to_n() {
    let t = fermat_factorization::factor(5959).unwrap();
    let p: i128 = find(&t.result, "Faktor 1").parse().unwrap();
    let q: i128 = find(&t.result, "Faktor 2").parse().unwrap();
    assert_eq!(p * q, 5959);
    assert_eq!((p.min(q), p.max(q)), (59, 101));
}

#[test]
fn pollard_rho_finds_a_divisor() {
    let t = pollard_rho_factor::factor(8051).unwrap();
    let d: i128 = find(&t.result, "Faktor").parse().unwrap();
    let c: i128 = find(&t.result, "Co-Faktor").parse().unwrap();
    assert_eq!(d * c, 8051);
    assert!(d == 83 || d == 97);
}

#[test]
fn elgamal_decrypt_undoes_encrypt() {
    let enc = elgamal::encrypt(467, 2, 127, 321, 213).unwrap();
    let (c1, c2) = pair(&enc.result[0].1);
    let dec = elgamal::decrypt(467, 127, c1, c2).unwrap();
    assert_eq!(dec.result[0].1, "321");
}

#[test]
fn elgamal_product_of_ciphertexts_decrypts_to_product() {
    let p = 467;
    let (a1, b1) = pair(&elgamal::encrypt(p, 2, 127, 15, 31).unwrap().result[0].1);
    let (a2, b2) = pair(&elgamal::encrypt(p, 2, 127, 20, 77).unwrap().result[0].1);
    let a = rem_euclid(a1 * a2, p);
    let b = rem_euclid(b1 * b2, p);
    let dec = elgamal::decrypt(p, 127, a, b).unwrap();
    assert_eq!(dec.result[0].1, "300");
    let t = elgamal_mult_homomorph::run(p, 2, mod_pow(2, 127, p).unwrap(), 127, a1, b1, a, b).unwrap();
    assert_eq!(find(&t.result, "m1"), "15");
    assert_eq!(find(&t.result, "Erweiterungsfaktor"), "20");
}

#[test]
fn paillier_product_of_ciphertexts_encrypts_the_sum() {
    let c1: i128 = paillier::encrypt(35, 36, 30, 4).unwrap().result[0].1.parse().unwrap();
    let c2: i128 = paillier::encrypt(35, 36, 10, 9).unwrap().result[0].1.parse().unwrap();
    let c3: i128 = paillier::encrypt(35, 36, 5, 36).unwrap().result[0].1.parse().unwrap();
    assert_eq!(rem_euclid(c1 * c2, 35 * 35), c3);
    let t = paillier_add_homomorph::run(5, 7, 30, 10, 4, 9).unwrap();
    assert_eq!(find(&t.result, "c = c1"), c3.to_string());
    assert_eq!(find(&t.result, "(m1 + m2) mod n"), "5");
}

#[test]
fn paillier_playbook_refusals() {
    assert!(paillier_add_homomorph::run(4, 7, 1, 1, 1, 1).unwrap_err().message().contains("p = 4"));
    assert!(paillier_add_homomorph::run(5, 9, 1, 1, 1, 1).unwrap_err().message().contains("q = 9"));
    assert!(paillier_add_homomorph::run(5, 5, 1, 1, 1, 1).unwrap_err().message().contains("verschieden"));
    assert!(paillier_add_homomorph::run(65537, 65537, 1, 1, 1, 1).unwrap_err().message().contains("verschieden"));
    assert!(paillier::keygen(65537, 65537).unwrap_err().message().contains("verschieden"));
    assert!(paillier_add_homomorph::run(5, 7, 35, 1, 1, 1).unwrap_err().message().contains("m1"));
    assert!(paillier_add_homomorph::run(5, 7, 1, -1, 1, 1).unwrap_err().message().contains("m2"));
    assert!(paillier_add_homomorph::run(5, 7, 1, 1, 1, 14).unwrap_err().message().contains("gcd(r2, n) = 7"));
}

#[test]
fn shamir_three_pass_recovers_the_message() {
    for m in [0i128, 1, 10, 22] {
        let t = shamir_three_pass::run(23, m, 3, 5).unwrap();
        assert_eq!(find(&t.result, "Wiederhergestellter Klartext"), m.to_string());
    }
    for m in [0i128, 1, 2, 3, -1] {
        let t = shamir_three_pass::run(2, m, 1, 1).unwrap();
        assert_eq!(find(&t.result, "Wiederhergestellter Klartext"), m.rem_euclid(2).to_string());
    }
    let t = shamir_three_pass::run(23, 47, 3, 5).unwrap();
    assert_eq!(find(&t.result, "Wiederhergestellter Klartext"), "1");
}

#[test]
fn rsa_generated_key_decrypts_every_message() {
    let kg = rsa::keygen(61, 53, 17).unwrap();
    let (n, d) = pair(&find(&kg.result, "Privater Schlüssel"));
    assert_eq!((n, d), (3233, 2753));
    for m in [0i128, 1, 65, 3232] {
        let c: i128 = rsa::encrypt(n, 17, m).unwrap().result[0].1.parse().unwrap();
        assert_eq!(rsa::decrypt(n, d, c).unwrap().result[0].1, m.to_string());
        let s: i128 = rsa_signature::sign(n, d, m).unwrap().result[0].1.parse().unwrap();
        let v = rsa_signature::verify(n, 17, m, s).unwrap();
        assert_eq!(find(&v.result, "Signatur gültig"), "true");
    }
}

#[test]
fn paillier_generated_key_decrypts() {
    let kg = paillier::keygen(5, 7).unwrap();
    let (lambda, mu) = pair(&find(&kg.result, "Privater Schlüssel"));
    for (m, r) in [(0i128, 1i128), (17, 2), (34, 3)] {
        let c: i128 = paillier::encrypt(35, 36, m, r).unwrap().result[0].1.parse().unwrap();
        assert_eq!(paillier::decrypt(35, lambda, mu, c).unwrap().result[0].1, m.to_string());
    }
}

#[test]
fn point_addition_commutes() {
    let p = Point::Affine(3, 10);
    let q = Point::Affine(9, 7);
    let pq = add(p, q, 1, 23).unwrap();
    let qp = add(q, p, 1, 23).unwrap();
    assert_eq!(pq, qp);
    assert_eq!(pq, Point::Affine(17, 20));
}

#[test]
fn point_plus_negation_is_infinity() {
    let p = Point::Affine(3, 10);
    assert_eq!(add(p, Point::Affine(3, 13), 1, 23).unwrap(), Point::Infinity);
    assert_eq!(add(Point::Infinity, p, 1, 23).unwrap(), p);
    assert_eq!(add(p, Point::Infinity, 1, 23).unwrap(), p);
}

#[test]
fn rho_logarithm_solves_the_equation() {
    let t = pollard_rho_dlog::solve(2, 3, 101).unwrap();
    let x: i128 = t.result[0].1.parse().unwrap();
    assert_eq!(x, 69);
    assert_eq!(mod_pow(2, x, 101).unwrap(), 3);
    let t = pollard_rho_dlog::solve(2, 9, 83).unwrap();
    let x: i128 = t.result[0].1.parse().unwrap();
    assert_eq!(mod_pow(2, x, 83).unwrap(), 9);
}

#[test]
fn rsa_round_trip_with_negative_public_exponent() {
    let kg = rsa::keygen(11, 13, -7).unwrap();
    assert_eq!(kg.result[1].1, "(143, 17)");
    let enc = rsa::encrypt(143, -7, 9).unwrap();
    let c: i128 = enc.result[0].1.parse().unwrap();
    let dec = rsa::decrypt(143, 17, c).unwrap();
    assert_eq!(dec.result[0].1, "9");
}

#[test]
fn ext_gcd_with_the_smallest_i128() {
    assert_eq!(ext_gcd(i128::MIN, 1), (1, 0, 1));
    assert_eq!(ext_gcd(0, i128::MIN), (i128::MIN, 0, 1));
    let (g, x, y) = ext_gcd(i128::MIN, 3);
    assert_eq!(g, 1);
    assert_eq!(y, 56713727820156410577229101238628035243);
    assert_eq!(x, 1);
}

#[test]
fn scalar_multiplication_rules() {
    let p = Point::Affine(3, 6);
    assert_eq!(scalar_mul(0, p.clone(), 2, 97).unwrap(), Point::Infinity);
    let neg = Point::Affine(3, 91);
    assert_eq!(scalar_mul(-3, p.clone(), 2, 97).unwrap(), scalar_mul(3, neg, 2, 97).unwrap());
    let twice = add(p.clone(), p.clone(), 2, 97).unwrap();
    assert_eq!(scalar_mul(4, p.clone(), 2, 97).unwrap(), scalar_mul(2, twice, 2, 97).unwrap());
}

#[test]
fn sums_of_curve_points_stay_on_the_curve() {
    let on = |q: &Point| match q {
        Point::Infinity => true,
        Point::Affine(x, y) => (0..97).contains(x) && (0..97).contains(y) && (y * y - (x * x * x + 2 * x + 3)).rem_euclid(97) == 0,
    };
    let pts = [Point::Affine(0, 10), Point::Affine(1, 43), Point::Affine(3, 6), Point::Affine(4, 47), Point::Affine(3, 91)];
    for p1 in pts.iter() {
        for p2 in pts.iter() {
            let r = add(*p1, *p2, 2, 97).unwrap();
            assert!(on(&r), "{:?} + {:?} = {:?}", p1, p2, r);
        }
    }
}

#[test]
fn paillier_moduli_up_to_the_square_limit() {
    let t = paillier::keygen(60013, 60017).unwrap();
    assert!(find(&t.result, "Öffentlicher Schlüssel (n, g)").starts_with("(3601800221, "));
    let e = paillier::encrypt(1 << 100, 2, -1, 3).unwrap_err();
    assert!(e.message().contains("m muss in [0, n) liegen"));
    let e = paillier::decrypt(1, 12, 3, 5).unwrap_err();
    assert!(e.message().contains("n muss > 1 sein"));
}
