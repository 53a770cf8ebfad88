use cryputil::dispatch::{commands, run, run_checked, supported, ParamValue, Params};
use cryputil::error::CalcError;

fn params(pairs: Vec<(&str, ParamValue)>) -> Params {
    let mut p = Params::new();
    for (k, v) in pairs {
        p.push(k, v);
    }
    p
}

#[test]
fn unknown_command_message_is_exact() {
    let err = run_checked("rm -rf", &Params::new()).unwrap_err();
    assert_eq!(err.message(), "Ungültige Eingabe: Unbekanntes Kommando 'rm -rf'");
}

#[test]
fn every_listed_command_is_dispatched() {
    for c in commands() {
        let r = run_checked(c.name, &Params::new());
        if let Err(e) = r {
            assert!(!e.message().contains("Unbekanntes Kommando"), "{}", c.name);
        }
    }
    assert_eq!(commands().len(), 36);
}

#[test]
fn parameter_errors_name_the_parameter() {
    let e = run("mod.add", &params(vec![("a", ParamValue::Text("x1".into()))])).unwrap_err();
    assert_eq!(e.message(), "Ungültige Eingabe: 'a' ist keine Ganzzahl");
    let e = run("mod.add", &params(vec![("a", ParamValue::Other)])).unwrap_err();
    assert_eq!(e.message(), "Ungültige Eingabe: Parameter 'a' muss Zahl oder Zahlen-String sein");
    let e = run("mod.add", &params(vec![("a", ParamValue::Null)])).unwrap_err();
    assert_eq!(e.message(), "Ungültige Eingabe: Parameter 'a' muss Zahl oder Zahlen-String sein");
    let e = run("mod.add", &params(vec![("a", ParamValue::Int(1)), ("b", ParamValue::Int(2))])).unwrap_err();
    assert_eq!(e.message(), "Ungültige Eingabe: Parameter 'n' fehlt");
    // the text is read exactly as written: surrounding blanks are not allowed
    let e = run("mod.add", &params(vec![("a", ParamValue::Text(" 1".into()))])).unwrap_err();
    assert_eq!(e.message(), "Ungültige Eingabe: 'a' ist keine Ganzzahl");
}

#[test]
fn first_entry_of_a_name_counts() {
    let p = params(vec![
        ("a", ParamValue::Int(7)),
        ("a", ParamValue::Int(100)),
        ("b", ParamValue::Text("-5".into())),
        ("n", ParamValue::Text("+12".into())),
    ]);
    let t = run("mod.add", &p).unwrap();
    assert_eq!(t.result[0].1, "2");
}

#[test]
fn optional_parameter_may_be_absent_or_empty() {
    let base = vec![("n", ParamValue::Int(444149)), ("e", ParamValue::Int(37)), ("d", ParamValue::Int(59833))];
    let t = run("pb.rsa_check_d", &params(base.clone())).unwrap();
    assert!(!t.result.is_empty());
    let mut with_null = base.clone();
    with_null.push(("y", ParamValue::Null));
    assert!(run("pb.rsa_check_d", &params(with_null)).is_ok());
    let mut bad = base;
    bad.push(("y", ParamValue::Text("abc".into())));
    let e = run("pb.rsa_check_d", &params(bad)).unwrap_err();
    assert_eq!(e.message(), "Ungültige Eingabe: 'y' ist keine Ganzzahl");
}

#[test]
fn text_parameter_must_be_text() {
    let t = run("transposition.decrypt", &params(vec![("text", ParamValue::Text("WIDIPIKEA".into()))])).unwrap();
    assert!(t.result.iter().any(|(_, v)| v == "WIKIPEDIA"));
    let e = run("transposition.decrypt", &params(vec![("text", ParamValue::Int(5))])).unwrap_err();
    assert_eq!(e.message(), "Ungültige Eingabe: Parameter 'text' fehlt");
}

#[test]
fn out_of_range_values_are_refused() {
    let zero = params(vec![("a", ParamValue::Int(1)), ("b", ParamValue::Int(2)), ("n", ParamValue::Int(0))]);
    assert!(!supported("mod.add", &zero));
    let e = run_checked("mod.add", &zero).unwrap_err();
    assert!(matches!(e, CalcError::Bereich(_)));
    assert_eq!(
        e.message(),
        "Wert außerhalb des erlaubten Bereichs: Parameter außerhalb des unterstützten Zahlenbereichs"
    );
    let huge = params(vec![
        ("n", ParamValue::Text("170141183460469231731687303715884105727".into())),
        ("e", ParamValue::Int(3)),
        ("m", ParamValue::Int(2)),
    ]);
    assert!(!supported("rsa.encrypt", &huge));
    let fine = params(vec![("n", ParamValue::Int(143)), ("e", ParamValue::Int(7)), ("m", ParamValue::Int(9))]);
    assert!(supported("rsa.encrypt", &fine));
    assert!(supported("nope", &Params::new()));
}

#[test]
fn dispatch_matches_direct_call() {
    let p = params(vec![("n", ParamValue::Int(143)), ("e", ParamValue::Int(7)), ("m", ParamValue::Int(9))]);
    let via = run("rsa.encrypt", &p).unwrap();
    let direct = cryputil::algorithms::rsa::encrypt(143, 7, 9).unwrap();
    assert_eq!(via.result, direct.result);
    assert_eq!(via.result[0].1, "48");
}

#[test]
fn moduli_above_two_to_the_63_are_served() {
    let p = params(vec![
        ("n", ParamValue::Text("10000000000000000000".into())),
        ("e", ParamValue::Int(3)),
        ("m", ParamValue::Int(2)),
    ]);
    assert!(supported("rsa.encrypt", &p));
    assert_eq!(run_checked("rsa.encrypt", &p).unwrap().result[0].1, "8");
    let big = params(vec![
        ("p", ParamValue::Text("1267650600228229401496703205376".into())),
        ("g", ParamValue::Int(2)),
        ("x", ParamValue::Int(3)),
        ("m", ParamValue::Int(4)),
        ("k", ParamValue::Int(5)),
    ]);
    assert!(supported("elgamal.encrypt", &big));
    let e = run_checked("elgamal.encrypt", &big).unwrap_err();
    assert!(matches!(e, CalcError::NichtPrim(_)));
}

#[test]
fn range_errors_come_before_size_limits() {
    let p = params(vec![
        ("n", ParamValue::Text("1000000000000000000000000000000".into())),
        ("e", ParamValue::Int(65537)),
        ("y", ParamValue::Int(-1)),
    ]);
    assert!(supported("pb.rsa_pcap_decrypt", &p));
    let e = run_checked("pb.rsa_pcap_decrypt", &p).unwrap_err();
    assert_eq!(e.message(), "Wert außerhalb des erlaubten Bereichs: y muss in [0, n) liegen");
    let f = params(vec![
        ("n", ParamValue::Text("1000000000000000000000000000000".into())),
        ("s", ParamValue::Int(3)),
        ("k", ParamValue::Int(5)),
        ("e", ParamValue::Int(2)),
    ]);
    let e = run_checked("fiat_shamir.round", &f).unwrap_err();
    assert_eq!(e.message(), "Ungültige Eingabe: e muss 0 oder 1 sein");
}

#[test]
fn key_check_limits_apply_only_where_they_are_used() {
    let big = "100000000000000000000000000000";
    let not_two_primes = params(vec![
        ("n", ParamValue::Int(8)),
        ("e", ParamValue::Text(big.into())),
        ("d", ParamValue::Text(big.into())),
    ]);
    assert!(supported("pb.rsa_check_d", &not_two_primes));
    let e = run_checked("pb.rsa_check_d", &not_two_primes).unwrap_err();
    assert_eq!(e.message(), "Ungültige Eingabe: n ist kein Produkt zweier verschiedener Primzahlen");
    let overflow = params(vec![
        ("n", ParamValue::Int(3233)),
        ("e", ParamValue::Text(big.into())),
        ("d", ParamValue::Text(big.into())),
    ]);
    assert!(!supported("pb.rsa_check_d", &overflow));
    let fine = params(vec![("n", ParamValue::Int(3233)), ("e", ParamValue::Int(17)), ("d", ParamValue::Int(2753))]);
    assert!(supported("pb.rsa_check_d", &fine));
    assert!(run_checked("pb.rsa_check_d", &fine).is_ok());
}
