use cryputil::dispatch::{commands, run, run_checked, supported, ParamValue, Params};
use cryputil::error::CalcError;

fn ints(pairs: &[(&str, i128)]) -> Params {
    let mut p = Params::new();
    for (k, v) in pairs {
        p.push(k, ParamValue::Int(*v));
    }
    p
}

fn texts(pairs: &[(&str, &str)]) -> Params {
    let mut p = Params::new();
    for (k, v) in pairs {
        p.push(k, ParamValue::Text(v.to_string()));
    }
    p
}

#[test]
fn test_mod_add_via_dispatch() {
    let trace = run("mod.add", &ints(&[("a", 7), ("b", 5), ("n", 12)])).unwrap();
    assert_eq!(trace.result[0].1, "0");
}

#[test]
fn test_string_numbers_for_large_values() {
    let trace = run("rsa.encrypt", &texts(&[("n", "143"), ("e", "7"), ("m", "9")])).unwrap();
    assert!(!trace.result.is_empty());
}

#[test]
fn test_unknown_command() {
    let err = run("nope", &Params::new()).unwrap_err();
    assert!(err.message().contains("Unbekanntes Kommando"));
}

#[test]
fn test_missing_param() {
    let err = run("mod.add", &ints(&[("a", 1), ("b", 2)])).unwrap_err();
    assert!(err.message().contains("'n'"));
}

#[test]
fn test_commands_listed() {
    let cmds = commands();
    assert!(cmds.iter().any(|c| c.name == "rsa.encrypt"));
    assert!(cmds.len() > 20);
}
