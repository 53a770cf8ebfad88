//! The terminal menus: which computations each section offers, what it asks
//! for and in which order, and the answers that the prompts accept.
use vstd::prelude::*;
use crate::analysis::frequency_analysis::{lowercase_of, to_lowercase};
use crate::dispatch::command_table;
use crate::text::{dec, push_int, push_str};
use crate::validation::text_eq;

verus! {

/// How a value is asked for.
#[derive(Debug, Clone, Copy)]
pub enum Ask {
    /// Any integer.
    Int,
    /// An integer of at least the bound.
    AtLeast(i128),
    /// A line of text.
    Line,
    /// After the yes/no question is answered yes: an integer of at least the bound.
    IfYes(&'static str, i128),
}

/// One value that a menu entry asks for, and the parameter it fills.
#[derive(Debug, Clone, Copy)]
pub struct Prompt {
    pub param: &'static str,
    pub label: &'static str,
    pub ask: Ask,
}

/// One entry of a menu: the key that selects it, its label, the lines shown
/// before the prompts, the command it runs and the values it asks for.
#[derive(Debug, Clone, Copy)]
pub struct MenuEntry {
    pub choice: &'static str,
    pub label: &'static str,
    pub intro: &'static [&'static str],
    pub command: &'static str,
    pub prompts: &'static [Prompt],
}

/// A menu: its title and entries.
#[derive(Debug, Clone, Copy)]
pub struct Menu {
    pub title: &'static str,
    pub entries: &'static [MenuEntry],
}

/// How a value is asked for, as text and numbers.
pub enum AskView {
    Int,
    AtLeast(int),
    Line,
    IfYes(Seq<char>, int),
}

pub open spec fn ask_view(a: Ask) -> AskView {
    match a {
        Ask::Int => AskView::Int,
        Ask::AtLeast(m) => AskView::AtLeast(m as int),
        Ask::Line => AskView::Line,
        Ask::IfYes(s, m) => AskView::IfYes(s@, m as int),
    }
}

pub open spec fn prompt_view(p: Prompt) -> (Seq<char>, Seq<char>, AskView) {
    (p.param@, p.label@, ask_view(p.ask))
}

pub open spec fn entry_view(e: MenuEntry) -> (Seq<char>, Seq<char>, Seq<Seq<char>>, Seq<char>, Seq<(Seq<char>, Seq<char>, AskView)>) {
    (
        e.choice@,
        e.label@,
        e.intro@.map_values(|l: &str| l@),
        e.command@,
        e.prompts@.map_values(|p: Prompt| prompt_view(p)),
    )
}

pub open spec fn menu_view(m: Menu) -> (Seq<char>, Seq<(Seq<char>, Seq<char>, Seq<Seq<char>>, Seq<char>, Seq<(Seq<char>, Seq<char>, AskView)>)>) {
    (m.title@, m.entries@.map_values(|e: MenuEntry| entry_view(e)))
}

/// The parameter name as the command list writes it: `?` after an optional one.
pub open spec fn param_key(p: (Seq<char>, Seq<char>, AskView)) -> Seq<char> {
    if p.2 is IfYes {
        p.0 + "?"@
    } else {
        p.0
    }
}

/// The entry runs a listed command and asks for exactly its parameters, in order.
pub open spec fn runs_listed(e: (Seq<char>, Seq<char>, Seq<Seq<char>>, Seq<char>, Seq<(Seq<char>, Seq<char>, AskView)>)) -> bool {
    exists|i: int|
        0 <= i < command_table().len() && #[trigger] command_table()[i].0 == e.3
            && command_table()[i].1 == e.4.map_values(|p: (Seq<char>, Seq<char>, AskView)| param_key(p))
}

/// The entries of `modulo_menu`.
pub open spec fn modulo_menu_table() -> (Seq<char>, Seq<(Seq<char>, Seq<char>, Seq<Seq<char>>, Seq<char>, Seq<(Seq<char>, Seq<char>, AskView)>)>) {
    ("Modulo-Arithmetik"@, seq![
        ("1"@, "Addition"@, seq![], "mod.add"@, seq![("a"@, "a"@, AskView::Int), ("b"@, "b"@, AskView::Int), ("n"@, "n"@, AskView::AtLeast(1))]),
        ("2"@, "Subtraktion"@, seq![], "mod.sub"@, seq![("a"@, "a"@, AskView::Int), ("b"@, "b"@, AskView::Int), ("n"@, "n"@, AskView::AtLeast(1))]),
        ("3"@, "Multiplikation"@, seq![], "mod.mul"@, seq![("a"@, "a"@, AskView::Int), ("b"@, "b"@, AskView::Int), ("n"@, "n"@, AskView::AtLeast(1))]),
        ("4"@, "Exponentiation"@, seq![], "mod.pow"@, seq![("a"@, "a"@, AskView::Int), ("e"@, "e"@, AskView::AtLeast(0)), ("n"@, "n"@, AskView::AtLeast(1))]),
        ("5"@, "Additives Inverses"@, seq![], "mod.inv_add"@, seq![("a"@, "a"@, AskView::Int), ("n"@, "n"@, AskView::AtLeast(1))]),
        ("6"@, "Multiplikatives Inverses"@, seq![], "mod.inv_mul"@, seq![("a"@, "a"@, AskView::Int), ("n"@, "n"@, AskView::AtLeast(1))]),
        ("7"@, "Zyklische Untergruppe"@, seq![], "mod.subgroup"@, seq![("g"@, "g"@, AskView::Int), ("p"@, "p (prim)"@, AskView::AtLeast(2))]),
        ("8"@, "Primitive Wurzeln"@, seq![], "mod.primitive_roots"@, seq![("p"@, "p (prim)"@, AskView::AtLeast(2))]),
    ])
}

/// The entries of `crypto_menu`.
pub open spec fn crypto_menu_table() -> (Seq<char>, Seq<(Seq<char>, Seq<char>, Seq<Seq<char>>, Seq<char>, Seq<(Seq<char>, Seq<char>, AskView)>)>) {
    ("Kryptografische Verfahren"@, seq![
        ("1"@, "RSA-Schlüsselerzeugung"@, seq![], "rsa.keygen"@, seq![("p"@, "p (prim)"@, AskView::AtLeast(2)), ("q"@, "q (prim)"@, AskView::AtLeast(2)), ("e"@, "e"@, AskView::AtLeast(2))]),
        ("2"@, "RSA-Verschlüsselung"@, seq![], "rsa.encrypt"@, seq![("n"@, "n"@, AskView::AtLeast(2)), ("e"@, "e"@, AskView::AtLeast(1)), ("m"@, "m"@, AskView::AtLeast(0))]),
        ("3"@, "RSA-Entschlüsselung"@, seq![], "rsa.decrypt"@, seq![("n"@, "n"@, AskView::AtLeast(2)), ("d"@, "d"@, AskView::AtLeast(1)), ("c"@, "c"@, AskView::AtLeast(0))]),
        ("4"@, "Diffie-Hellman"@, seq![], "dh.exchange"@, seq![("p"@, "p (prim)"@, AskView::AtLeast(2)), ("g"@, "g"@, AskView::AtLeast(2)), ("a"@, "a (privat A)"@, AskView::AtLeast(1)), ("b"@, "b (privat B)"@, AskView::AtLeast(1))]),
        ("5"@, "ElGamal-Verschlüsselung"@, seq![], "elgamal.encrypt"@, seq![("p"@, "p (prim)"@, AskView::AtLeast(2)), ("g"@, "g"@, AskView::AtLeast(2)), ("x"@, "x (privat)"@, AskView::AtLeast(1)), ("m"@, "m"@, AskView::AtLeast(0)), ("k"@, "k (ephemeral)"@, AskView::AtLeast(1))]),
        ("6"@, "ElGamal-Entschlüsselung"@, seq![], "elgamal.decrypt"@, seq![("p"@, "p (prim)"@, AskView::AtLeast(2)), ("x"@, "x (privat)"@, AskView::AtLeast(1)), ("c1"@, "c1"@, AskView::AtLeast(0)), ("c2"@, "c2"@, AskView::AtLeast(0))]),
        ("7"@, "Shamir Three-Pass"@, seq![], "shamir.three_pass"@, seq![("p"@, "p (prim)"@, AskView::AtLeast(2)), ("m"@, "m"@, AskView::AtLeast(0)), ("a"@, "a (Alice)"@, AskView::AtLeast(1)), ("b"@, "b (Bob)"@, AskView::AtLeast(1))]),
        ("8"@, "ECC: Punktaddition"@, seq![], "ecc.add"@, seq![("a"@, "a"@, AskView::Int), ("b"@, "b"@, AskView::Int), ("p"@, "p (prim)"@, AskView::AtLeast(2)), ("px"@, "P.x"@, AskView::Int), ("py"@, "P.y"@, AskView::Int), ("qx"@, "Q.x"@, AskView::Int), ("qy"@, "Q.y"@, AskView::Int)]),
        ("9"@, "ECC: Skalarmultiplikation"@, seq![], "ecc.scalar"@, seq![("a"@, "a"@, AskView::Int), ("b"@, "b"@, AskView::Int), ("p"@, "p (prim)"@, AskView::AtLeast(2)), ("k"@, "k"@, AskView::AtLeast(0)), ("px"@, "P.x"@, AskView::Int), ("py"@, "P.y"@, AskView::Int)]),
        ("10"@, "RSA-Signatur: Erzeugung"@, seq![], "rsa.sign"@, seq![("n"@, "n"@, AskView::AtLeast(2)), ("d"@, "d (privat)"@, AskView::AtLeast(1)), ("m"@, "m (Nachricht)"@, AskView::AtLeast(0))]),
        ("11"@, "RSA-Signatur: Verifikation"@, seq![], "rsa.verify"@, seq![("n"@, "n"@, AskView::AtLeast(2)), ("e"@, "e (öffentlich)"@, AskView::AtLeast(1)), ("m"@, "m (Nachricht)"@, AskView::AtLeast(0)), ("s"@, "s (Signatur)"@, AskView::AtLeast(0))]),
        ("12"@, "ElGamal-Signatur: Erzeugung"@, seq![], "elgamal.sign"@, seq![("p"@, "p (prim)"@, AskView::AtLeast(2)), ("g"@, "g"@, AskView::AtLeast(2)), ("d"@, "d (privat)"@, AskView::AtLeast(1)), ("m"@, "m (Nachricht)"@, AskView::AtLeast(0)), ("k"@, "k (ephemeral)"@, AskView::AtLeast(1))]),
        ("13"@, "ElGamal-Signatur: Verifikation"@, seq![], "elgamal.verify"@, seq![("p"@, "p (prim)"@, AskView::AtLeast(2)), ("g"@, "g"@, AskView::AtLeast(2)), ("e"@, "e (öffentlich)"@, AskView::AtLeast(1)), ("m"@, "m (Nachricht)"@, AskView::AtLeast(0)), ("r"@, "r"@, AskView::AtLeast(0)), ("s"@, "s"@, AskView::AtLeast(0))]),
    ])
}

/// The entries of `ident_menu`.
pub open spec fn ident_menu_table() -> (Seq<char>, Seq<(Seq<char>, Seq<char>, Seq<Seq<char>>, Seq<char>, Seq<(Seq<char>, Seq<char>, AskView)>)>) {
    ("Identifikationsprotokolle"@, seq![
        ("1"@, "Fiat-Shamir (eine Runde)"@, seq![], "fiat_shamir.round"@, seq![("n"@, "n"@, AskView::AtLeast(2)), ("s"@, "s (Geheimnis)"@, AskView::AtLeast(1)), ("k"@, "k (Commitment-Zufall)"@, AskView::AtLeast(1)), ("e"@, "e (0 oder 1)"@, AskView::AtLeast(0))]),
    ])
}

/// The entries of `analysis_menu`.
pub open spec fn analysis_menu_table() -> (Seq<char>, Seq<(Seq<char>, Seq<char>, Seq<Seq<char>>, Seq<char>, Seq<(Seq<char>, Seq<char>, AskView)>)>) {
    ("Kryptoanalyse"@, seq![
        ("1"@, "Baby-Step-Giant-Step"@, seq![], "bsgs"@, seq![("g"@, "g"@, AskView::AtLeast(2)), ("h"@, "h"@, AskView::AtLeast(1)), ("p"@, "p (prim)"@, AskView::AtLeast(2))]),
        ("2"@, "Pollard-Rho (Faktorisierung)"@, seq![], "pollard_rho.factor"@, seq![("n"@, "n"@, AskView::AtLeast(2))]),
        ("3"@, "Pollard-Rho (diskreter Logarithmus)"@, seq![], "pollard_rho.dlog"@, seq![("g"@, "g"@, AskView::AtLeast(2)), ("h"@, "h"@, AskView::AtLeast(1)), ("p"@, "p (prim)"@, AskView::AtLeast(2))]),
        ("4"@, "Fermat-Faktorisierung"@, seq![], "fermat.factor"@, seq![("n"@, "n"@, AskView::AtLeast(3))]),
        ("5"@, "Spaltentransposition (Varianten)"@, seq![], "transposition.decrypt"@, seq![("text"@, "Geheimtext"@, AskView::Line)]),
    ])
}

/// The entries of `playbooks_menu`.
pub open spec fn playbooks_menu_table() -> (Seq<char>, Seq<(Seq<char>, Seq<char>, Seq<Seq<char>>, Seq<char>, Seq<(Seq<char>, Seq<char>, AskView)>)>) {
    ("Playbooks"@, seq![
        ("1"@, "ElGamal: Multiplikativer Homomorphismus"@, seq![""@, "ElGamal: Multiplikativer Homomorphismus"@, "Öffentlicher Schlüssel K_pub = (p, g, e), privater Schlüssel d."@, "Ursprüngliches Chiffrat (a1, b1) zu m1, kombiniertes Chiffrat (a, b)."@], "pb.elgamal_mult_homomorph"@, seq![("p"@, "p (prim)"@, AskView::AtLeast(2)), ("g"@, "g"@, AskView::AtLeast(2)), ("e"@, "e (öffentlich)"@, AskView::AtLeast(1)), ("d"@, "d (privat)"@, AskView::AtLeast(1)), ("a1"@, "a1"@, AskView::AtLeast(0)), ("b1"@, "b1"@, AskView::AtLeast(0)), ("a"@, "a (kombiniert)"@, AskView::AtLeast(0)), ("b"@, "b (kombiniert)"@, AskView::AtLeast(0))]),
        ("2"@, "RSA: aus (n, e) und y → d und Klartext"@, seq![""@, "RSA: gegeben Kpub = (n, e) und Geheimtext y, gesucht d und x."@], "pb.rsa_priv_from_pub_y"@, seq![("n"@, "n"@, AskView::AtLeast(2)), ("e"@, "e"@, AskView::AtLeast(1)), ("y"@, "y (Geheimtext)"@, AskView::AtLeast(0)), ("phi"@, "phi(n)"@, AskView::IfYes("phi(n) bekannt (für Verifikation)?"@, 1))]),
        ("3"@, "Diffie-Hellman: aus g, p, α, β → K"@, seq![""@, "Diffie-Hellman: gegeben g, p, α, β; gesucht gemeinsamer Schlüssel K."@], "pb.dh_k_from_g_p_alpha_beta"@, seq![("g"@, "g"@, AskView::AtLeast(2)), ("p"@, "p (prim)"@, AskView::AtLeast(2)), ("alpha"@, "α (Alice öffentlich)"@, AskView::AtLeast(0)), ("beta"@, "β (Bob öffentlich)"@, AskView::AtLeast(0))]),
        ("4"@, "ElGamal: aus Kpub = (p, g, e) → privater Schlüssel d"@, seq![""@, "ElGamal: gegeben Kpub = (p, g, e); gesucht privater Schlüssel d."@], "pb.elgamal_d_from_kpub"@, seq![("p"@, "p (prim)"@, AskView::AtLeast(2)), ("g"@, "g"@, AskView::AtLeast(2)), ("e"@, "e"@, AskView::AtLeast(1))]),
        ("5"@, "RSA: passt d zu Kpub = (n, e)?"@, seq![""@, "RSA: prüfen, ob privater Schlüssel d zu Kpub = (n, e) passt."@], "pb.rsa_check_d"@, seq![("n"@, "n"@, AskView::AtLeast(2)), ("e"@, "e"@, AskView::AtLeast(1)), ("d"@, "d (zu prüfen)"@, AskView::AtLeast(1)), ("y"@, "y"@, AskView::IfYes("Beispiel-Geheimtext y für Round-Trip-Test angeben?"@, 0))]),
        ("6"@, "ElGamal-Signatur: Verifikation"@, seq![""@, "ElGamal-Signatur: Verifikation von (m, r, s) gegen Kpub = (p, g, e)."@], "pb.elgamal_sig_verify"@, seq![("p"@, "p (prim)"@, AskView::AtLeast(2)), ("g"@, "g"@, AskView::AtLeast(2)), ("e"@, "e"@, AskView::AtLeast(1)), ("m"@, "m"@, AskView::AtLeast(0)), ("r"@, "r"@, AskView::AtLeast(0)), ("s"@, "s"@, AskView::AtLeast(0))]),
        ("7"@, "RSA: aus Kpub = (n, e) und y → d und Klartext (Wireshark/pcap)"@, seq![""@, "RSA: aus Kpub = (n, e) und Geheimtext y den privaten Schlüssel d"@, "und den Klartext x bestimmen (z. B. nach Wireshark-Auswertung)."@, "Hinweis: Werte aus pcap-Daten ggf. von Hex in Dezimal umrechnen."@], "pb.rsa_pcap_decrypt"@, seq![("n"@, "n"@, AskView::AtLeast(2)), ("e"@, "e"@, AskView::AtLeast(1)), ("y"@, "y (Geheimtext)"@, AskView::AtLeast(0))]),
        ("8"@, "ElGamal: aus Kpub = (p, g, e) und (a, b) → d und Klartext (Wireshark/pcap)"@, seq![""@, "ElGamal: aus Kpub = (p, g, e) und Geheimtext (a, b) den privaten"@, "Schlüssel d und den Klartext m bestimmen (z. B. nach Wireshark-Auswertung)."@, "Hinweis: Werte aus pcap-Daten ggf. von Hex in Dezimal umrechnen."@], "pb.elgamal_pcap_decrypt"@, seq![("p"@, "p (prim)"@, AskView::AtLeast(2)), ("g"@, "g"@, AskView::AtLeast(2)), ("e"@, "e"@, AskView::AtLeast(1)), ("a"@, "a (= c1)"@, AskView::AtLeast(0)), ("b"@, "b (= c2)"@, AskView::AtLeast(0))]),
        ("9"@, "Diffie-Hellman: gemeinsamer Schlüssel aus Mitschnitt (Wireshark/pcap)"@, seq![""@, "Diffie-Hellman: aus dem Mitschnitt p, g, α, β extrahieren und K bestimmen."@, "Hinweis: Werte aus pcap-Daten ggf. von Hex in Dezimal umrechnen."@], "pb.dh_pcap_shared"@, seq![("p"@, "p (Modul, prim)"@, AskView::AtLeast(2)), ("g"@, "g (Basis)"@, AskView::AtLeast(2)), ("alpha"@, "α (Alice öffentlich)"@, AskView::AtLeast(0)), ("beta"@, "β (Bob öffentlich)"@, AskView::AtLeast(0)), ("c"@, "c (Geheimtext)"@, AskView::IfYes("Geheimtext c im Mitschnitt vorhanden?"@, 0))]),
    ])
}

/// The section "Modulo-Arithmetik".
pub fn modulo_menu() -> (m: Menu)
    ensures
        menu_view(m) == modulo_menu_table(),
{
    let m = Menu {
        title: "Modulo-Arithmetik",
        entries: &[
            MenuEntry {
                choice: "1",
                label: "Addition",
                intro: &[],
                command: "mod.add",
                prompts: &[
                    Prompt { param: "a", label: "a", ask: Ask::Int },
                    Prompt { param: "b", label: "b", ask: Ask::Int },
                    Prompt { param: "n", label: "n", ask: Ask::AtLeast(1) },
                ],
            },
            MenuEntry {
                choice: "2",
                label: "Subtraktion",
                intro: &[],
                command: "mod.sub",
                prompts: &[
                    Prompt { param: "a", label: "a", ask: Ask::Int },
                    Prompt { param: "b", label: "b", ask: Ask::Int },
                    Prompt { param: "n", label: "n", ask: Ask::AtLeast(1) },
                ],
            },
            MenuEntry {
                choice: "3",
                label: "Multiplikation",
                intro: &[],
                command: "mod.mul",
                prompts: &[
                    Prompt { param: "a", label: "a", ask: Ask::Int },
                    Prompt { param: "b", label: "b", ask: Ask::Int },
                    Prompt { param: "n", label: "n", ask: Ask::AtLeast(1) },
                ],
            },
            MenuEntry {
                choice: "4",
                label: "Exponentiation",
                intro: &[],
                command: "mod.pow",
                prompts: &[
                    Prompt { param: "a", label: "a", ask: Ask::Int },
                    Prompt { param: "e", label: "e", ask: Ask::AtLeast(0) },
                    Prompt { param: "n", label: "n", ask: Ask::AtLeast(1) },
                ],
            },
            MenuEntry {
                choice: "5",
                label: "Additives Inverses",
                intro: &[],
                command: "mod.inv_add",
                prompts: &[
                    Prompt { param: "a", label: "a", ask: Ask::Int },
                    Prompt { param: "n", label: "n", ask: Ask::AtLeast(1) },
                ],
            },
            MenuEntry {
                choice: "6",
                label: "Multiplikatives Inverses",
                intro: &[],
                command: "mod.inv_mul",
                prompts: &[
                    Prompt { param: "a", label: "a", ask: Ask::Int },
                    Prompt { param: "n", label: "n", ask: Ask::AtLeast(1) },
                ],
            },
            MenuEntry {
                choice: "7",
                label: "Zyklische Untergruppe",
                intro: &[],
                command: "mod.subgroup",
                prompts: &[
                    Prompt { param: "g", label: "g", ask: Ask::Int },
                    Prompt { param: "p", label: "p (prim)", ask: Ask::AtLeast(2) },
                ],
            },
            MenuEntry {
                choice: "8",
                label: "Primitive Wurzeln",
                intro: &[],
                command: "mod.primitive_roots",
                prompts: &[
                    Prompt { param: "p", label: "p (prim)", ask: Ask::AtLeast(2) },
                ],
            },
        ],
    };
    assert(menu_view(m) =~~= modulo_menu_table());
    m
}

/// The section "Kryptografische Verfahren".
pub fn crypto_menu() -> (m: Menu)
    ensures
        menu_view(m) == crypto_menu_table(),
{
    let m = Menu {
        title: "Kryptografische Verfahren",
        entries: &[
            MenuEntry {
                choice: "1",
                label: "RSA-Schlüsselerzeugung",
                intro: &[],
                command: "rsa.keygen",
                prompts: &[
                    Prompt { param: "p", label: "p (prim)", ask: Ask::AtLeast(2) },
                    Prompt { param: "q", label: "q (prim)", ask: Ask::AtLeast(2) },
                    Prompt { param: "e", label: "e", ask: Ask::AtLeast(2) },
                ],
            },
            MenuEntry {
                choice: "2",
                label: "RSA-Verschlüsselung",
                intro: &[],
                command: "rsa.encrypt",
                prompts: &[
                    Prompt { param: "n", label: "n", ask: Ask::AtLeast(2) },
                    Prompt { param: "e", label: "e", ask: Ask::AtLeast(1) },
                    Prompt { param: "m", label: "m", ask: Ask::AtLeast(0) },
                ],
            },
            MenuEntry {
                choice: "3",
                label: "RSA-Entschlüsselung",
                intro: &[],
                command: "rsa.decrypt",
                prompts: &[
                    Prompt { param: "n", label: "n", ask: Ask::AtLeast(2) },
                    Prompt { param: "d", label: "d", ask: Ask::AtLeast(1) },
                    Prompt { param: "c", label: "c", ask: Ask::AtLeast(0) },
                ],
            },
            MenuEntry {
                choice: "4",
                label: "Diffie-Hellman",
                intro: &[],
                command: "dh.exchange",
                prompts: &[
                    Prompt { param: "p", label: "p (prim)", ask: Ask::AtLeast(2) },
                    Prompt { param: "g", label: "g", ask: Ask::AtLeast(2) },
                    Prompt { param: "a", label: "a (privat A)", ask: Ask::AtLeast(1) },
                    Prompt { param: "b", label: "b (privat B)", ask: Ask::AtLeast(1) },
                ],
            },
            MenuEntry {
                choice: "5",
                label: "ElGamal-Verschlüsselung",
                intro: &[],
                command: "elgamal.encrypt",
                prompts: &[
                    Prompt { param: "p", label: "p (prim)", ask: Ask::AtLeast(2) },
                    Prompt { param: "g", label: "g", ask: Ask::AtLeast(2) },
                    Prompt { param: "x", label: "x (privat)", ask: Ask::AtLeast(1) },
                    Prompt { param: "m", label: "m", ask: Ask::AtLeast(0) },
                    Prompt { param: "k", label: "k (ephemeral)", ask: Ask::AtLeast(1) },
                ],
            },
            MenuEntry {
                choice: "6",
                label: "ElGamal-Entschlüsselung",
                intro: &[],
                command: "elgamal.decrypt",
                prompts: &[
                    Prompt { param: "p", label: "p (prim)", ask: Ask::AtLeast(2) },
                    Prompt { param: "x", label: "x (privat)", ask: Ask::AtLeast(1) },
                    Prompt { param: "c1", label: "c1", ask: Ask::AtLeast(0) },
                    Prompt { param: "c2", label: "c2", ask: Ask::AtLeast(0) },
                ],
            },
            MenuEntry {
                choice: "7",
                label: "Shamir Three-Pass",
                intro: &[],
                command: "shamir.three_pass",
                prompts: &[
                    Prompt { param: "p", label: "p (prim)", ask: Ask::AtLeast(2) },
                    Prompt { param: "m", label: "m", ask: Ask::AtLeast(0) },
                    Prompt { param: "a", label: "a (Alice)", ask: Ask::AtLeast(1) },
                    Prompt { param: "b", label: "b (Bob)", ask: Ask::AtLeast(1) },
                ],
            },
            MenuEntry {
                choice: "8",
                label: "ECC: Punktaddition",
                intro: &[],
                command: "ecc.add",
                prompts: &[
                    Prompt { param: "a", label: "a", ask: Ask::Int },
                    Prompt { param: "b", label: "b", ask: Ask::Int },
                    Prompt { param: "p", label: "p (prim)", ask: Ask::AtLeast(2) },
                    Prompt { param: "px", label: "P.x", ask: Ask::Int },
                    Prompt { param: "py", label: "P.y", ask: Ask::Int },
                    Prompt { param: "qx", label: "Q.x", ask: Ask::Int },
                    Prompt { param: "qy", label: "Q.y", ask: Ask::Int },
                ],
            },
            MenuEntry {
                choice: "9",
                label: "ECC: Skalarmultiplikation",
                intro: &[],
                command: "ecc.scalar",
                prompts: &[
                    Prompt { param: "a", label: "a", ask: Ask::Int },
                    Prompt { param: "b", label: "b", ask: Ask::Int },
                    Prompt { param: "p", label: "p (prim)", ask: Ask::AtLeast(2) },
                    Prompt { param: "k", label: "k", ask: Ask::AtLeast(0) },
                    Prompt { param: "px", label: "P.x", ask: Ask::Int },
                    Prompt { param: "py", label: "P.y", ask: Ask::Int },
                ],
            },
            MenuEntry {
                choice: "10",
                label: "RSA-Signatur: Erzeugung",
                intro: &[],
                command: "rsa.sign",
                prompts: &[
                    Prompt { param: "n", label: "n", ask: Ask::AtLeast(2) },
                    Prompt { param: "d", label: "d (privat)", ask: Ask::AtLeast(1) },
                    Prompt { param: "m", label: "m (Nachricht)", ask: Ask::AtLeast(0) },
                ],
            },
            MenuEntry {
                choice: "11",
                label: "RSA-Signatur: Verifikation",
                intro: &[],
                command: "rsa.verify",
                prompts: &[
                    Prompt { param: "n", label: "n", ask: Ask::AtLeast(2) },
                    Prompt { param: "e", label: "e (öffentlich)", ask: Ask::AtLeast(1) },
                    Prompt { param: "m", label: "m (Nachricht)", ask: Ask::AtLeast(0) },
                    Prompt { param: "s", label: "s (Signatur)", ask: Ask::AtLeast(0) },
                ],
            },
            MenuEntry {
                choice: "12",
                label: "ElGamal-Signatur: Erzeugung",
                intro: &[],
                command: "elgamal.sign",
                prompts: &[
                    Prompt { param: "p", label: "p (prim)", ask: Ask::AtLeast(2) },
                    Prompt { param: "g", label: "g", ask: Ask::AtLeast(2) },
                    Prompt { param: "d", label: "d (privat)", ask: Ask::AtLeast(1) },
                    Prompt { param: "m", label: "m (Nachricht)", ask: Ask::AtLeast(0) },
                    Prompt { param: "k", label: "k (ephemeral)", ask: Ask::AtLeast(1) },
                ],
            },
            MenuEntry {
                choice: "13",
                label: "ElGamal-Signatur: Verifikation",
                intro: &[],
                command: "elgamal.verify",
                prompts: &[
                    Prompt { param: "p", label: "p (prim)", ask: Ask::AtLeast(2) },
                    Prompt { param: "g", label: "g", ask: Ask::AtLeast(2) },
                    Prompt { param: "e", label: "e (öffentlich)", ask: Ask::AtLeast(1) },
                    Prompt { param: "m", label: "m (Nachricht)", ask: Ask::AtLeast(0) },
                    Prompt { param: "r", label: "r", ask: Ask::AtLeast(0) },
                    Prompt { param: "s", label: "s", ask: Ask::AtLeast(0) },
                ],
            },
        ],
    };
    assert(menu_view(m) =~~= crypto_menu_table());
    m
}

/// The section "Identifikationsprotokolle".
pub fn ident_menu() -> (m: Menu)
    ensures
        menu_view(m) == ident_menu_table(),
{
    let m = Menu {
        title: "Identifikationsprotokolle",
        entries: &[
            MenuEntry {
                choice: "1",
                label: "Fiat-Shamir (eine Runde)",
                intro: &[],
                command: "fiat_shamir.round",
                prompts: &[
                    Prompt { param: "n", label: "n", ask: Ask::AtLeast(2) },
                    Prompt { param: "s", label: "s (Geheimnis)", ask: Ask::AtLeast(1) },
                    Prompt { param: "k", label: "k (Commitment-Zufall)", ask: Ask::AtLeast(1) },
                    Prompt { param: "e", label: "e (0 oder 1)", ask: Ask::AtLeast(0) },
                ],
            },
        ],
    };
    assert(menu_view(m) =~~= ident_menu_table());
    m
}

/// The section "Kryptoanalyse".
pub fn analysis_menu() -> (m: Menu)
    ensures
        menu_view(m) == analysis_menu_table(),
{
    let m = Menu {
        title: "Kryptoanalyse",
        entries: &[
            MenuEntry {
                choice: "1",
                label: "Baby-Step-Giant-Step",
                intro: &[],
                command: "bsgs",
                prompts: &[
                    Prompt { param: "g", label: "g", ask: Ask::AtLeast(2) },
                    Prompt { param: "h", label: "h", ask: Ask::AtLeast(1) },
                    Prompt { param: "p", label: "p (prim)", ask: Ask::AtLeast(2) },
                ],
            },
            MenuEntry {
                choice: "2",
                label: "Pollard-Rho (Faktorisierung)",
                intro: &[],
                command: "pollard_rho.factor",
                prompts: &[
                    Prompt { param: "n", label: "n", ask: Ask::AtLeast(2) },
                ],
            },
            MenuEntry {
                choice: "3",
                label: "Pollard-Rho (diskreter Logarithmus)",
                intro: &[],
                command: "pollard_rho.dlog",
                prompts: &[
                    Prompt { param: "g", label: "g", ask: Ask::AtLeast(2) },
                    Prompt { param: "h", label: "h", ask: Ask::AtLeast(1) },
                    Prompt { param: "p", label: "p (prim)", ask: Ask::AtLeast(2) },
                ],
            },
            MenuEntry {
                choice: "4",
                label: "Fermat-Faktorisierung",
                intro: &[],
                command: "fermat.factor",
                prompts: &[
                    Prompt { param: "n", label: "n", ask: Ask::AtLeast(3) },
                ],
            },
            MenuEntry {
                choice: "5",
                label: "Spaltentransposition (Varianten)",
                intro: &[],
                command: "transposition.decrypt",
                prompts: &[
                    Prompt { param: "text", label: "Geheimtext", ask: Ask::Line },
                ],
            },
        ],
    };
    assert(menu_view(m) =~~= analysis_menu_table());
    m
}

/// The section "Playbooks".
pub fn playbooks_menu() -> (m: Menu)
    ensures
        menu_view(m) == playbooks_menu_table(),
{
    let m = Menu {
        title: "Playbooks",
        entries: &[
            MenuEntry {
                choice: "1",
                label: "ElGamal: Multiplikativer Homomorphismus",
                intro: &["", "ElGamal: Multiplikativer Homomorphismus", "Öffentlicher Schlüssel K_pub = (p, g, e), privater Schlüssel d.", "Ursprüngliches Chiffrat (a1, b1) zu m1, kombiniertes Chiffrat (a, b)."],
                command: "pb.elgamal_mult_homomorph",
                prompts: &[
                    Prompt { param: "p", label: "p (prim)", ask: Ask::AtLeast(2) },
                    Prompt { param: "g", label: "g", ask: Ask::AtLeast(2) },
                    Prompt { param: "e", label: "e (öffentlich)", ask: Ask::AtLeast(1) },
                    Prompt { param: "d", label: "d (privat)", ask: Ask::AtLeast(1) },
                    Prompt { param: "a1", label: "a1", ask: Ask::AtLeast(0) },
                    Prompt { param: "b1", label: "b1", ask: Ask::AtLeast(0) },
                    Prompt { param: "a", label: "a (kombiniert)", ask: Ask::AtLeast(0) },
                    Prompt { param: "b", label: "b (kombiniert)", ask: Ask::AtLeast(0) },
                ],
            },
            MenuEntry {
                choice: "2",
                label: "RSA: aus (n, e) und y → d und Klartext",
                intro: &["", "RSA: gegeben Kpub = (n, e) und Geheimtext y, gesucht d und x."],
                command: "pb.rsa_priv_from_pub_y",
                prompts: &[
                    Prompt { param: "n", label: "n", ask: Ask::AtLeast(2) },
                    Prompt { param: "e", label: "e", ask: Ask::AtLeast(1) },
                    Prompt { param: "y", label: "y (Geheimtext)", ask: Ask::AtLeast(0) },
                    Prompt { param: "phi", label: "phi(n)", ask: Ask::IfYes("phi(n) bekannt (für Verifikation)?", 1) },
                ],
            },
            MenuEntry {
                choice: "3",
                label: "Diffie-Hellman: aus g, p, α, β → K",
                intro: &["", "Diffie-Hellman: gegeben g, p, α, β; gesucht gemeinsamer Schlüssel K."],
                command: "pb.dh_k_from_g_p_alpha_beta",
                prompts: &[
                    Prompt { param: "g", label: "g", ask: Ask::AtLeast(2) },
                    Prompt { param: "p", label: "p (prim)", ask: Ask::AtLeast(2) },
                    Prompt { param: "alpha", label: "α (Alice öffentlich)", ask: Ask::AtLeast(0) },
                    Prompt { param: "beta", label: "β (Bob öffentlich)", ask: Ask::AtLeast(0) },
                ],
            },
            MenuEntry {
                choice: "4",
                label: "ElGamal: aus Kpub = (p, g, e) → privater Schlüssel d",
                intro: &["", "ElGamal: gegeben Kpub = (p, g, e); gesucht privater Schlüssel d."],
                command: "pb.elgamal_d_from_kpub",
                prompts: &[
                    Prompt { param: "p", label: "p (prim)", ask: Ask::AtLeast(2) },
                    Prompt { param: "g", label: "g", ask: Ask::AtLeast(2) },
                    Prompt { param: "e", label: "e", ask: Ask::AtLeast(1) },
                ],
            },
            MenuEntry {
                choice: "5",
                label: "RSA: passt d zu Kpub = (n, e)?",
                intro: &["", "RSA: prüfen, ob privater Schlüssel d zu Kpub = (n, e) passt."],
                command: "pb.rsa_check_d",
                prompts: &[
                    Prompt { param: "n", label: "n", ask: Ask::AtLeast(2) },
                    Prompt { param: "e", label: "e", ask: Ask::AtLeast(1) },
                    Prompt { param: "d", label: "d (zu prüfen)", ask: Ask::AtLeast(1) },
                    Prompt { param: "y", label: "y", ask: Ask::IfYes("Beispiel-Geheimtext y für Round-Trip-Test angeben?", 0) },
                ],
            },
            MenuEntry {
                choice: "6",
                label: "ElGamal-Signatur: Verifikation",
                intro: &["", "ElGamal-Signatur: Verifikation von (m, r, s) gegen Kpub = (p, g, e)."],
                command: "pb.elgamal_sig_verify",
                prompts: &[
                    Prompt { param: "p", label: "p (prim)", ask: Ask::AtLeast(2) },
                    Prompt { param: "g", label: "g", ask: Ask::AtLeast(2) },
                    Prompt { param: "e", label: "e", ask: Ask::AtLeast(1) },
                    Prompt { param: "m", label: "m", ask: Ask::AtLeast(0) },
                    Prompt { param: "r", label: "r", ask: Ask::AtLeast(0) },
                    Prompt { param: "s", label: "s", ask: Ask::AtLeast(0) },
                ],
            },
            MenuEntry {
                choice: "7",
                label: "RSA: aus Kpub = (n, e) und y → d und Klartext (Wireshark/pcap)",
                intro: &["", "RSA: aus Kpub = (n, e) und Geheimtext y den privaten Schlüssel d", "und den Klartext x bestimmen (z. B. nach Wireshark-Auswertung).", "Hinweis: Werte aus pcap-Daten ggf. von Hex in Dezimal umrechnen."],
                command: "pb.rsa_pcap_decrypt",
                prompts: &[
                    Prompt { param: "n", label: "n", ask: Ask::AtLeast(2) },
                    Prompt { param: "e", label: "e", ask: Ask::AtLeast(1) },
                    Prompt { param: "y", label: "y (Geheimtext)", ask: Ask::AtLeast(0) },
                ],
            },
            MenuEntry {
                choice: "8",
                label: "ElGamal: aus Kpub = (p, g, e) und (a, b) → d und Klartext (Wireshark/pcap)",
                intro: &["", "ElGamal: aus Kpub = (p, g, e) und Geheimtext (a, b) den privaten", "Schlüssel d und den Klartext m bestimmen (z. B. nach Wireshark-Auswertung).", "Hinweis: Werte aus pcap-Daten ggf. von Hex in Dezimal umrechnen."],
                command: "pb.elgamal_pcap_decrypt",
                prompts: &[
                    Prompt { param: "p", label: "p (prim)", ask: Ask::AtLeast(2) },
                    Prompt { param: "g", label: "g", ask: Ask::AtLeast(2) },
                    Prompt { param: "e", label: "e", ask: Ask::AtLeast(1) },
                    Prompt { param: "a", label: "a (= c1)", ask: Ask::AtLeast(0) },
                    Prompt { param: "b", label: "b (= c2)", ask: Ask::AtLeast(0) },
                ],
            },
            MenuEntry {
                choice: "9",
                label: "Diffie-Hellman: gemeinsamer Schlüssel aus Mitschnitt (Wireshark/pcap)",
                intro: &["", "Diffie-Hellman: aus dem Mitschnitt p, g, α, β extrahieren und K bestimmen.", "Hinweis: Werte aus pcap-Daten ggf. von Hex in Dezimal umrechnen."],
                command: "pb.dh_pcap_shared",
                prompts: &[
                    Prompt { param: "p", label: "p (Modul, prim)", ask: Ask::AtLeast(2) },
                    Prompt { param: "g", label: "g (Basis)", ask: Ask::AtLeast(2) },
                    Prompt { param: "alpha", label: "α (Alice öffentlich)", ask: Ask::AtLeast(0) },
                    Prompt { param: "beta", label: "β (Bob öffentlich)", ask: Ask::AtLeast(0) },
                    Prompt { param: "c", label: "c (Geheimtext)", ask: Ask::IfYes("Geheimtext c im Mitschnitt vorhanden?", 0) },
                ],
            },
        ],
    };
    assert(menu_view(m) =~~= playbooks_menu_table());
    m
}

/// Every entry of `modulo_menu` runs a listed command with exactly its parameters.
pub proof fn lemma_modulo_menu_runs_listed()
    ensures
        forall|k: int| 0 <= k < modulo_menu_table().1.len() ==> runs_listed(#[trigger] modulo_menu_table().1[k]),
{
    let t = command_table();
    let es = modulo_menu_table().1;
    assert(t[0].0 == es[0].3);
    assert(t[0].1 =~= es[0].4.map_values(|p: (Seq<char>, Seq<char>, AskView)| param_key(p)));
    assert(runs_listed(es[0]));
    assert(t[1].0 == es[1].3);
    assert(t[1].1 =~= es[1].4.map_values(|p: (Seq<char>, Seq<char>, AskView)| param_key(p)));
    assert(runs_listed(es[1]));
    assert(t[2].0 == es[2].3);
    assert(t[2].1 =~= es[2].4.map_values(|p: (Seq<char>, Seq<char>, AskView)| param_key(p)));
    assert(runs_listed(es[2]));
    assert(t[3].0 == es[3].3);
    assert(t[3].1 =~= es[3].4.map_values(|p: (Seq<char>, Seq<char>, AskView)| param_key(p)));
    assert(runs_listed(es[3]));
    assert(t[4].0 == es[4].3);
    assert(t[4].1 =~= es[4].4.map_values(|p: (Seq<char>, Seq<char>, AskView)| param_key(p)));
    assert(runs_listed(es[4]));
    assert(t[5].0 == es[5].3);
    assert(t[5].1 =~= es[5].4.map_values(|p: (Seq<char>, Seq<char>, AskView)| param_key(p)));
    assert(runs_listed(es[5]));
    assert(t[6].0 == es[6].3);
    assert(t[6].1 =~= es[6].4.map_values(|p: (Seq<char>, Seq<char>, AskView)| param_key(p)));
    assert(runs_listed(es[6]));
    assert(t[7].0 == es[7].3);
    assert(t[7].1 =~= es[7].4.map_values(|p: (Seq<char>, Seq<char>, AskView)| param_key(p)));
    assert(runs_listed(es[7]));
    assert forall|k: int| 0 <= k < es.len() implies runs_listed(#[trigger] es[k]) by {
        assert(k == 0 || k == 1 || k == 2 || k == 3 || k == 4 || k == 5 || k == 6 || k == 7);
    }
}

/// Every entry of `crypto_menu` runs a listed command with exactly its parameters.
pub proof fn lemma_crypto_menu_runs_listed()
    ensures
        forall|k: int| 0 <= k < crypto_menu_table().1.len() ==> runs_listed(#[trigger] crypto_menu_table().1[k]),
{
    let t = command_table();
    let es = crypto_menu_table().1;
    assert(t[8].0 == es[0].3);
    assert(t[8].1 =~= es[0].4.map_values(|p: (Seq<char>, Seq<char>, AskView)| param_key(p)));
    assert(runs_listed(es[0]));
    assert(t[9].0 == es[1].3);
    assert(t[9].1 =~= es[1].4.map_values(|p: (Seq<char>, Seq<char>, AskView)| param_key(p)));
    assert(runs_listed(es[1]));
    assert(t[10].0 == es[2].3);
    assert(t[10].1 =~= es[2].4.map_values(|p: (Seq<char>, Seq<char>, AskView)| param_key(p)));
    assert(runs_listed(es[2]));
    assert(t[17].0 == es[3].3);
    assert(t[17].1 =~= es[3].4.map_values(|p: (Seq<char>, Seq<char>, AskView)| param_key(p)));
    assert(runs_listed(es[3]));
    assert(t[13].0 == es[4].3);
    assert(t[13].1 =~= es[4].4.map_values(|p: (Seq<char>, Seq<char>, AskView)| param_key(p)));
    assert(runs_listed(es[4]));
    assert(t[14].0 == es[5].3);
    assert(t[14].1 =~= es[5].4.map_values(|p: (Seq<char>, Seq<char>, AskView)| param_key(p)));
    assert(runs_listed(es[5]));
    assert(t[18].0 == es[6].3);
    assert(t[18].1 =~= es[6].4.map_values(|p: (Seq<char>, Seq<char>, AskView)| param_key(p)));
    assert(runs_listed(es[6]));
    assert(t[19].0 == es[7].3);
    assert(t[19].1 =~= es[7].4.map_values(|p: (Seq<char>, Seq<char>, AskView)| param_key(p)));
    assert(runs_listed(es[7]));
    assert(t[20].0 == es[8].3);
    assert(t[20].1 =~= es[8].4.map_values(|p: (Seq<char>, Seq<char>, AskView)| param_key(p)));
    assert(runs_listed(es[8]));
    assert(t[11].0 == es[9].3);
    assert(t[11].1 =~= es[9].4.map_values(|p: (Seq<char>, Seq<char>, AskView)| param_key(p)));
    assert(runs_listed(es[9]));
    assert(t[12].0 == es[10].3);
    assert(t[12].1 =~= es[10].4.map_values(|p: (Seq<char>, Seq<char>, AskView)| param_key(p)));
    assert(runs_listed(es[10]));
    assert(t[15].0 == es[11].3);
    assert(t[15].1 =~= es[11].4.map_values(|p: (Seq<char>, Seq<char>, AskView)| param_key(p)));
    assert(runs_listed(es[11]));
    assert(t[16].0 == es[12].3);
    assert(t[16].1 =~= es[12].4.map_values(|p: (Seq<char>, Seq<char>, AskView)| param_key(p)));
    assert(runs_listed(es[12]));
    assert forall|k: int| 0 <= k < es.len() implies runs_listed(#[trigger] es[k]) by {
        assert(k == 0 || k == 1 || k == 2 || k == 3 || k == 4 || k == 5 || k == 6 || k == 7 || k == 8 || k == 9 || k == 10 || k == 11 || k == 12);
    }
}

/// Every entry of `ident_menu` runs a listed command with exactly its parameters.
pub proof fn lemma_ident_menu_runs_listed()
    ensures
        forall|k: int| 0 <= k < ident_menu_table().1.len() ==> runs_listed(#[trigger] ident_menu_table().1[k]),
{
    let t = command_table();
    let es = ident_menu_table().1;
    assert(t[21].0 == es[0].3);
    assert(t[21].1 =~= es[0].4.map_values(|p: (Seq<char>, Seq<char>, AskView)| param_key(p)));
    assert(runs_listed(es[0]));
    assert forall|k: int| 0 <= k < es.len() implies runs_listed(#[trigger] es[k]) by {
        assert(k == 0);
    }
}

/// Every entry of `analysis_menu` runs a listed command with exactly its parameters.
pub proof fn lemma_analysis_menu_runs_listed()
    ensures
        forall|k: int| 0 <= k < analysis_menu_table().1.len() ==> runs_listed(#[trigger] analysis_menu_table().1[k]),
{
    let t = command_table();
    let es = analysis_menu_table().1;
    assert(t[22].0 == es[0].3);
    assert(t[22].1 =~= es[0].4.map_values(|p: (Seq<char>, Seq<char>, AskView)| param_key(p)));
    assert(runs_listed(es[0]));
    assert(t[23].0 == es[1].3);
    assert(t[23].1 =~= es[1].4.map_values(|p: (Seq<char>, Seq<char>, AskView)| param_key(p)));
    assert(runs_listed(es[1]));
    assert(t[24].0 == es[2].3);
    assert(t[24].1 =~= es[2].4.map_values(|p: (Seq<char>, Seq<char>, AskView)| param_key(p)));
    assert(runs_listed(es[2]));
    assert(t[25].0 == es[3].3);
    assert(t[25].1 =~= es[3].4.map_values(|p: (Seq<char>, Seq<char>, AskView)| param_key(p)));
    assert(runs_listed(es[3]));
    assert(t[26].0 == es[4].3);
    assert(t[26].1 =~= es[4].4.map_values(|p: (Seq<char>, Seq<char>, AskView)| param_key(p)));
    assert(runs_listed(es[4]));
    assert forall|k: int| 0 <= k < es.len() implies runs_listed(#[trigger] es[k]) by {
        assert(k == 0 || k == 1 || k == 2 || k == 3 || k == 4);
    }
}

/// Every entry of `playbooks_menu` runs a listed command with exactly its parameters.
pub proof fn lemma_playbooks_menu_runs_listed()
    ensures
        forall|k: int| 0 <= k < playbooks_menu_table().1.len() ==> runs_listed(#[trigger] playbooks_menu_table().1[k]),
{
    let t = command_table();
    let es = playbooks_menu_table().1;
    assert(t[27].0 == es[0].3);
    assert(t[27].1 =~= es[0].4.map_values(|p: (Seq<char>, Seq<char>, AskView)| param_key(p)));
    assert(runs_listed(es[0]));
    reveal_strlit("phi");
    reveal_strlit("phi?");
    reveal_strlit("?");
    assert("phi"@ + "?"@ =~= "phi?"@);
    assert(t[28].0 == es[1].3);
    assert(t[28].1 =~= es[1].4.map_values(|p: (Seq<char>, Seq<char>, AskView)| param_key(p)));
    assert(runs_listed(es[1]));
    assert(t[29].0 == es[2].3);
    assert(t[29].1 =~= es[2].4.map_values(|p: (Seq<char>, Seq<char>, AskView)| param_key(p)));
    assert(runs_listed(es[2]));
    assert(t[30].0 == es[3].3);
    assert(t[30].1 =~= es[3].4.map_values(|p: (Seq<char>, Seq<char>, AskView)| param_key(p)));
    assert(runs_listed(es[3]));
    reveal_strlit("y");
    reveal_strlit("y?");
    reveal_strlit("?");
    assert("y"@ + "?"@ =~= "y?"@);
    assert(t[31].0 == es[4].3);
    assert(t[31].1 =~= es[4].4.map_values(|p: (Seq<char>, Seq<char>, AskView)| param_key(p)));
    assert(runs_listed(es[4]));
    assert(t[32].0 == es[5].3);
    assert(t[32].1 =~= es[5].4.map_values(|p: (Seq<char>, Seq<char>, AskView)| param_key(p)));
    assert(runs_listed(es[5]));
    assert(t[33].0 == es[6].3);
    assert(t[33].1 =~= es[6].4.map_values(|p: (Seq<char>, Seq<char>, AskView)| param_key(p)));
    assert(runs_listed(es[6]));
    assert(t[34].0 == es[7].3);
    assert(t[34].1 =~= es[7].4.map_values(|p: (Seq<char>, Seq<char>, AskView)| param_key(p)));
    assert(runs_listed(es[7]));
    reveal_strlit("c");
    reveal_strlit("c?");
    reveal_strlit("?");
    assert("c"@ + "?"@ =~= "c?"@);
    assert(t[35].0 == es[8].3);
    assert(t[35].1 =~= es[8].4.map_values(|p: (Seq<char>, Seq<char>, AskView)| param_key(p)));
    assert(runs_listed(es[8]));
    assert forall|k: int| 0 <= k < es.len() implies runs_listed(#[trigger] es[k]) by {
        assert(k == 0 || k == 1 || k == 2 || k == 3 || k == 4 || k == 5 || k == 6 || k == 7 || k == 8);
    }
}
/// The lines of the main menu.
pub fn main_menu_lines() -> (r: &'static [&'static str])
    ensures
        r@.map_values(|l: &str| l@) == seq![
            ""@,
            "Crypto Lab"@,
            ""@,
            "1) Modulo-Arithmetik"@,
            "2) Kryptografische Verfahren"@,
            "3) Identifikationsprotokolle"@,
            "4) Kryptoanalyse"@,
            "5) Playbooks"@,
            "6) Letzte Schritte anzeigen"@,
            "0) Beenden"@,
        ],
{
    let r: &'static [&'static str] = &[
        "",
        "Crypto Lab",
        "",
        "1) Modulo-Arithmetik",
        "2) Kryptografische Verfahren",
        "3) Identifikationsprotokolle",
        "4) Kryptoanalyse",
        "5) Playbooks",
        "6) Letzte Schritte anzeigen",
        "0) Beenden",
    ];
    assert(r@.map_values(|l: &str| l@) =~= seq![
        ""@,
        "Crypto Lab"@,
        ""@,
        "1) Modulo-Arithmetik"@,
        "2) Kryptografische Verfahren"@,
        "3) Identifikationsprotokolle"@,
        "4) Kryptoanalyse"@,
        "5) Playbooks"@,
        "6) Letzte Schritte anzeigen"@,
        "0) Beenden"@,
    ]);
    r
}

/// What a line typed at the main menu selects.
#[derive(Debug, Clone, Copy, PartialEq, Eq, Structural)]
pub enum MainChoice {
    /// One of the sections, numbered from 0 in menu order.
    Section(usize),
    /// Show the steps of the last computation again.
    ShowLast,
    /// Leave the program.
    Quit,
    /// Not a choice of the menu.
    Invalid,
}

/// The main menu's answer to the typed line.
pub fn main_choice(line: &str) -> (c: MainChoice)
    ensures
        line@ == "1"@ ==> c == MainChoice::Section(0),
        line@ == "2"@ ==> c == MainChoice::Section(1),
        line@ == "3"@ ==> c == MainChoice::Section(2),
        line@ == "4"@ ==> c == MainChoice::Section(3),
        line@ == "5"@ ==> c == MainChoice::Section(4),
        line@ == "6"@ ==> c == MainChoice::ShowLast,
        line@ == "0"@ ==> c == MainChoice::Quit,
        !(line@ == "1"@ || line@ == "2"@ || line@ == "3"@ || line@ == "4"@ || line@ == "5"@
            || line@ == "6"@ || line@ == "0"@) ==> c == MainChoice::Invalid,
{
    proof {
        reveal_strlit("0");
        reveal_strlit("1");
        reveal_strlit("2");
        reveal_strlit("3");
        reveal_strlit("4");
        reveal_strlit("5");
        reveal_strlit("6");
        assert("0"@[0] == '0' && "1"@[0] == '1' && "2"@[0] == '2' && "3"@[0] == '3');
        assert("4"@[0] == '4' && "5"@[0] == '5' && "6"@[0] == '6');
    }
    if text_eq(line, "1") {
        MainChoice::Section(0)
    } else if text_eq(line, "2") {
        MainChoice::Section(1)
    } else if text_eq(line, "3") {
        MainChoice::Section(2)
    } else if text_eq(line, "4") {
        MainChoice::Section(3)
    } else if text_eq(line, "5") {
        MainChoice::Section(4)
    } else if text_eq(line, "6") {
        MainChoice::ShowLast
    } else if text_eq(line, "0") {
        MainChoice::Quit
    } else {
        MainChoice::Invalid
    }
}

/// The section with the given number, in main-menu order.
pub fn section(k: usize) -> (m: Menu)
    requires
        k < 5,
    ensures
        k == 0 ==> menu_view(m) == modulo_menu_table(),
        k == 1 ==> menu_view(m) == crypto_menu_table(),
        k == 2 ==> menu_view(m) == ident_menu_table(),
        k == 3 ==> menu_view(m) == analysis_menu_table(),
        k == 4 ==> menu_view(m) == playbooks_menu_table(),
{
    if k == 0 {
        modulo_menu()
    } else if k == 1 {
        crypto_menu()
    } else if k == 2 {
        ident_menu()
    } else if k == 3 {
        analysis_menu()
    } else {
        playbooks_menu()
    }
}

/// The lines of a section's menu: a blank line, the title, "k) label" per entry, "0) Zurück".
pub open spec fn menu_lines_of(m: Menu) -> Seq<Seq<char>> {
    seq![Seq::<char>::empty(), m.title@] + m.entries@.map_values(
        |e: MenuEntry| e.choice@ + ") "@ + e.label@,
    ) + seq!["0) Zurück"@]
}

/// The lines that show a section's menu.
pub fn menu_lines(m: &Menu) -> (r: Vec<String>)
    ensures
        r@.map_values(|s: String| s@) == menu_lines_of(*m),
{
    let mut r: Vec<String> = Vec::new();
    r.push(String::new());
    r.push(String::from_str(m.title));
    let mut k: usize = 0;
    while k < m.entries.len()
        invariant
            k <= m.entries@.len(),
            r@.map_values(|s: String| s@) == seq![Seq::<char>::empty(), m.title@]
                + m.entries@.take(k as int).map_values(|e: MenuEntry| e.choice@ + ") "@ + e.label@),
        decreases m.entries@.len() - k,
    {
        let e = m.entries[k];
        let mut l = String::from_str(e.choice);
        push_str(&mut l, ") ");
        push_str(&mut l, e.label);
        let ghost before = r@.map_values(|s: String| s@);
        r.push(l);
        assert(r@.map_values(|s: String| s@) =~= before.push(l@));
        assert(m.entries@.take(k + 1).map_values(|e: MenuEntry| e.choice@ + ") "@ + e.label@)
            =~= m.entries@.take(k as int).map_values(|e: MenuEntry| e.choice@ + ") "@ + e.label@).push(
            e.choice@ + ") "@ + e.label@,
        ));
        k += 1;
    }
    assert(m.entries@.take(k as int) =~= m.entries@);
    let ghost before = r@.map_values(|s: String| s@);
    let last = String::from_str("0) Zurück");
    r.push(last);
    assert(r@.map_values(|s: String| s@) =~= before.push(last@));
    assert(r@.map_values(|s: String| s@) =~= menu_lines_of(*m));
    r
}

/// The entry that the typed key selects: the first whose key it is.
pub fn find_entry(m: &Menu, choice: &str) -> (r: Option<usize>)
    ensures
        r matches Some(k) ==> k < m.entries@.len() && m.entries@[k as int].choice@ == choice@
            && forall|j: int| 0 <= j < k ==> m.entries@[j].choice@ != choice@,
        r is None ==> forall|j: int| 0 <= j < m.entries@.len() ==> m.entries@[j].choice@ != choice@,
{
    let mut k: usize = 0;
    while k < m.entries.len()
        invariant
            k <= m.entries@.len(),
            forall|j: int| 0 <= j < k ==> m.entries@[j].choice@ != choice@,
        decreases m.entries@.len() - k,
    {
        if text_eq(m.entries[k].choice, choice) {
            return Some(k);
        }
        k += 1;
    }
    None
}

/// A lower-cased answer to a yes/no question: "j", "ja", "y", "yes" mean yes;
/// "n", "nein", "no" mean no; anything else is no answer.
pub fn yes_no_key(a: &str) -> (r: Option<bool>)
    ensures
        r == yes_no_spec(a@),
{
    if text_eq(a, "j") || text_eq(a, "ja") || text_eq(a, "y") || text_eq(a, "yes") {
        Some(true)
    } else if text_eq(a, "n") || text_eq(a, "nein") || text_eq(a, "no") {
        Some(false)
    } else {
        None
    }
}

/// The answer to a yes/no question, read without regard to case (see `yes_no_key`).
pub fn yes_no(answer: &str) -> (r: Option<bool>)
    ensures
        r == yes_no_spec(lowercase_of(answer@)),
{
    let low = to_lowercase(answer);
    yes_no_key(low.as_str())
}

/// The meaning of a lower-cased answer.
pub open spec fn yes_no_spec(a: Seq<char>) -> Option<bool> {
    if a == "j"@ || a == "ja"@ || a == "y"@ || a == "yes"@ {
        Some(true)
    } else if a == "n"@ || a == "nein"@ || a == "no"@ {
        Some(false)
    } else {
        None
    }
}

/// The prompt for a value: "  label: ".
pub fn prompt_text(label: &str) -> (r: String)
    ensures
        r@ == "  "@ + label@ + ": "@,
{
    let mut r = String::from_str("  ");
    push_str(&mut r, label);
    push_str(&mut r, ": ");
    r
}

/// The prompt for a yes/no question: "  question [j/n]: ".
pub fn question_text(question: &str) -> (r: String)
    ensures
        r@ == "  "@ + question@ + " [j/n]: "@,
{
    let mut r = String::from_str("  ");
    push_str(&mut r, question);
    push_str(&mut r, " [j/n]: ");
    r
}

/// Whether an integer answer is accepted: at least the bound where there is one.
pub fn accepts(ask: Ask, v: i128) -> (b: bool)
    ensures
        b == match ask {
            Ask::AtLeast(lo) => v >= lo,
            Ask::IfYes(_, lo) => v >= lo,
            _ => true,
        },
{
    match ask {
        Ask::AtLeast(lo) => v >= lo,
        Ask::IfYes(_, lo) => v >= lo,
        _ => true,
    }
}

/// The notice for an answer below the bound: "    Wert muss >= lo sein.".
pub fn minimum_message(lo: i128) -> (r: String)
    ensures
        r@ == "    Wert muss >= "@ + dec(lo as int) + " sein."@,
{
    let mut r = String::from_str("    Wert muss >= ");
    push_int(&mut r, lo);
    push_str(&mut r, " sein.");
    r
}

} // verus!
