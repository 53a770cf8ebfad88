use cryputil::math::{mod_pow, rem_euclid};
use cryputil::playbooks::{
    dh_geg_g_p_alpha_beta_ges_k, dh_ges_schluessel, elgamal_geg_kpub_ges_kpriv,
    elgamal_geg_kpub_ges_priv_verf, elgamal_geg_sig_kpub_ges_legitsig, elgamal_mult_homomorph,
    paillier_add_homomorph, rsa_geg_kpub_ges_kpriv_plain, rsa_geg_kpub_kpriv_encm_ges_kpriv_to_kpub,
    rsa_geg_pub_enc_ges_priv_plain,
};

fn find(r: &[(String, String)], prefix: &str) -> String {
    r.iter().find(|(k, _)| k.starts_with(prefix)).unwrap().1.clone()
}

#[test]
fn elgamal_mult_homomorph_test_aufgabe() {
    let t = elgamal_mult_homomorph::run(31, 11, 3, 17, 13, 10, 2, 2).unwrap();
    assert_eq!(find(&t.result, "Erweiterungsfaktor"), "21");
}

#[test]
fn test_homomorphism_holds() {
    let t = paillier_add_homomorph::run(5, 7, 3, 7, 4, 9).unwrap();
    let m_total = find(&t.result, "Entschlüsselung");
    let expected = find(&t.result, "(m1 + m2)");
    assert_eq!(m_total, expected);
    assert_eq!(m_total, "10");
}

#[test]
fn test_wraps_around_n() {
    let t = paillier_add_homomorph::run(5, 7, 30, 10, 4, 9).unwrap();
    assert_eq!(find(&t.result, "Entschlüsselung"), "5");
}

#[test]
fn paillier_add_homomorph_test_rejects_bad_random() {
    assert!(paillier_add_homomorph::run(5, 7, 3, 4, 7, 9).is_err());
}

#[test]
fn dh_geg_g_p_alpha_beta_ges_k_test_aufgabe() {
    let t = dh_geg_g_p_alpha_beta_ges_k::run(545, 21407, 3796, 19505).unwrap();
    let k_n: i128 = find(&t.result, "K ").parse().unwrap();
    let a: i128 = find(&t.result, "a ").parse().unwrap();
    assert_eq!(mod_pow(545, a, 21407).unwrap(), 3796);
    assert_eq!(mod_pow(19505, a, 21407).unwrap(), k_n);
}

#[test]
fn dh_ges_schluessel_test_aufgabe() {
    let t = dh_ges_schluessel::run(28051, 1837, 9966, 1112, Some(6269)).unwrap();
    let a: i128 = find(&t.result, "a ").parse().unwrap();
    let k: i128 = find(&t.result, "K ").parse().unwrap();
    assert_eq!(mod_pow(1837, a, 28051).unwrap(), 9966);
    assert_eq!(mod_pow(1112, a, 28051).unwrap(), k);
}

#[test]
fn elgamal_geg_kpub_ges_kpriv_test_roundtrip() {
    let p = 25763i128;
    let g = 2618i128;
    let d_known = 1234i128;
    let e_pub = mod_pow(g, d_known, p).unwrap();
    let m = 9999i128;
    let k = 77i128;
    let a = mod_pow(g, k, p).unwrap();
    let b = rem_euclid(m * mod_pow(e_pub, k, p).unwrap(), p);
    let t = elgamal_geg_kpub_ges_kpriv::run(p, g, e_pub, a, b).unwrap();
    assert_eq!(find(&t.result, "m "), m.to_string());
    let d_rec: i128 = find(&t.result, "d ").parse().unwrap();
    assert_eq!(mod_pow(g, d_rec, p).unwrap(), e_pub);
}

#[test]
fn elgamal_geg_kpub_ges_priv_verf_test_aufgabe() {
    let t = elgamal_geg_kpub_ges_priv_verf::run(25763, 2618, 2025).unwrap();
    let d: i128 = find(&t.result, "d ").parse().unwrap();
    assert_eq!(mod_pow(2618, d, 25763).unwrap(), 2025);
}

#[test]
fn elgamal_geg_sig_kpub_ges_legitsig_test_aufgabe() {
    let t = elgamal_geg_sig_kpub_ges_legitsig::run(31, 7, 14, 15, 28, 29).unwrap();
    assert_eq!(find(&t.result, "Signatur gültig"), "true");
}

#[test]
fn test_ungueltige_signatur() {
    let t = elgamal_geg_sig_kpub_ges_legitsig::run(31, 7, 14, 15, 28, 30).unwrap();
    assert_eq!(find(&t.result, "Signatur gültig"), "false");
}

#[test]
fn rsa_geg_kpub_ges_kpriv_plain_test_roundtrip() {
    let p = 263i128;
    let q = 311i128;
    let n = p * q;
    let e = 17i128;
    let phi = (p - 1) * (q - 1);
    let m = 12345i128;
    let y = mod_pow(m, e, n).unwrap();
    let t = rsa_geg_kpub_ges_kpriv_plain::run(n, e, y).unwrap();
    assert_eq!(find(&t.result, "x "), m.to_string());
    let d = find(&t.result, "d ").parse::<i128>().unwrap();
    assert_eq!((e * d) % phi, 1);
}

#[test]
fn rsa_geg_kpub_kpriv_encm_ges_kpriv_to_kpub_test_aufgabe() {
    let t = rsa_geg_kpub_kpriv_encm_ges_kpriv_to_kpub::run(444149, 37, 59833, Some(56688)).unwrap();
    assert_eq!(find(&t.result, "d passt"), "true");
}

#[test]
fn test_falscher_schluessel() {
    let t = rsa_geg_kpub_kpriv_encm_ges_kpriv_to_kpub::run(444149, 37, 12345, Some(56688)).unwrap();
    assert_eq!(find(&t.result, "d passt"), "false");
}

#[test]
fn rsa_geg_pub_enc_ges_priv_plain_test_aufgabe() {
    let t = rsa_geg_pub_enc_ges_priv_plain::run(1010573, 83, 539875, Some(1008540)).unwrap();
    let d = find(&t.result, "d ");
    let x = find(&t.result, "x ");
    let n = 1010573i128;
    let e = 83i128;
    let y = 539875i128;
    let d_n: i128 = d.parse().unwrap();
    let x_n: i128 = x.parse().unwrap();
    assert_eq!((e * d_n) % 1008540, 1);
    assert_eq!(mod_pow(y, d_n, n).unwrap(), x_n);
}
