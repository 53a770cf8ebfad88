use cryputil::analysis::frequency_analysis;
use cryputil::dispatch::commands;
use cryputil::error::CalcError;
use cryputil::menu::{
    analysis_menu, crypto_menu, find_entry, ident_menu, main_choice, main_menu_lines,
    menu_lines, minimum_message, modulo_menu, playbooks_menu, prompt_text, question_text,
    section, yes_no, Ask, MainChoice,
};
use cryputil::render::{column_widths, render, render_error, render_summary};
use cryputil::trace::{Table, Trace};

fn sample() -> Trace {
    let mut t = Trace::new("X");
    t.input("a", "1");
    let s = t.step("Schritt");
    t.line(s, "z1");
    t.table(
        s,
        Table {
            headers: vec!["ab".to_string(), "c".to_string()],
            rows: vec![vec!["x".to_string(), "longer".to_string()], vec!["yyy".to_string()]],
        },
    );
    t.result("r", "2");
    t
}

#[test]
fn column_widths_take_the_longest_entry() {
    let t = sample();
    let table = t.steps[0].table.as_ref().unwrap();
    assert_eq!(column_widths(table), vec![3, 6]);
}

#[test]
fn full_layout_is_exact() {
    let lines = render(&sample());
    let expected = vec![
        "", "Algorithmus: X", "", "Eingaben:", "  a = 1", "", "Schritte:", "", "[1] Schritt",
        "    z1", "", "    ab  | c     ", "    ----+-------", "    x   | longer", "    yyy", "",
        "Ergebnis:", "  r = 2", "",
    ];
    assert_eq!(lines, expected);
}

#[test]
fn summary_and_error_layouts() {
    assert_eq!(render_summary(&sample()), vec!["", "Algorithmus: X", "", "Ergebnis:", "  r = 2", ""]);
    let empty = Trace::new("Leer");
    assert_eq!(render(&empty), vec!["", "Algorithmus: Leer", ""]);
    assert_eq!(
        render_error(&CalcError::DivisionDurchNull),
        vec!["", "Fehler: Division durch Null", ""]
    );
}

#[test]
fn main_menu_choices() {
    assert_eq!(main_menu_lines().len(), 10);
    assert_eq!(main_choice("1"), MainChoice::Section(0));
    assert_eq!(main_choice("5"), MainChoice::Section(4));
    assert_eq!(main_choice("6"), MainChoice::ShowLast);
    assert_eq!(main_choice("0"), MainChoice::Quit);
    assert_eq!(main_choice("7"), MainChoice::Invalid);
    assert_eq!(main_choice(""), MainChoice::Invalid);
    assert_eq!(section(2).title, "Identifikationsprotokolle");
}

#[test]
fn yes_no_ignores_case() {
    assert_eq!(yes_no("JA"), Some(true));
    assert_eq!(yes_no("Yes"), Some(true));
    assert_eq!(yes_no("j"), Some(true));
    assert_eq!(yes_no("NEIN"), Some(false));
    assert_eq!(yes_no("no"), Some(false));
    assert_eq!(yes_no("vielleicht"), None);
}

#[test]
fn menu_texts() {
    assert_eq!(
        menu_lines(&ident_menu()),
        vec!["", "Identifikationsprotokolle", "1) Fiat-Shamir (eine Runde)", "0) Zurück"]
    );
    assert_eq!(find_entry(&crypto_menu(), "13"), Some(12));
    assert_eq!(find_entry(&crypto_menu(), "14"), None);
    assert_eq!(prompt_text("n"), "  n: ");
    assert_eq!(question_text("Weiter?"), "  Weiter? [j/n]: ");
    assert_eq!(minimum_message(2), "    Wert muss >= 2 sein.");
}

#[test]
fn menu_entries_ask_for_the_command_parameters() {
    for menu in [modulo_menu(), crypto_menu(), ident_menu(), analysis_menu(), playbooks_menu()] {
        for (i, e) in menu.entries.iter().enumerate() {
            assert_eq!(e.choice, (i + 1).to_string());
            let spec = commands().iter().find(|c| c.name == e.command).unwrap();
            let keys: Vec<String> = e
                .prompts
                .iter()
                .map(|p| match p.ask {
                    Ask::IfYes(_, _) => format!("{}?", p.param),
                    _ => p.param.to_string(),
                })
                .collect();
            let listed: Vec<String> = spec.params.iter().map(|s| s.to_string()).collect();
            assert_eq!(keys, listed);
        }
    }
}

#[test]
fn language_name_is_trimmed_and_lowercased() {
    let t = frequency_analysis::analyze("XXXXXXXXXY", "  DE ").unwrap();
    assert!(t.result[0].1.starts_with("EEEEEEEEE"));
}

#[test]
fn percentages_match_float_rendering() {
    for text in ["AAB", "ABCDEFG", "HELLO WORLD", "THEQUICKBROWNFOXJUMPSOVERTHELAZYDOG"] {
        let t = frequency_analysis::analyze(text, "en").unwrap();
        let table = t.steps[0].table.as_ref().unwrap();
        let total: u32 = table.rows.iter().map(|r| r[1].parse::<u32>().unwrap()).sum();
        for row in &table.rows {
            let n: u32 = row[1].parse().unwrap();
            let pct = n as f64 * 100.0 / total as f64;
            assert_eq!(row[2], format!("{:.2}", pct), "{} in {}", row[0], text);
        }
    }
}

#[test]
fn lower_cased_keys_decide() {
    assert_eq!(cryputil::menu::yes_no_key("ja"), Some(true));
    assert_eq!(cryputil::menu::yes_no_key("nein"), Some(false));
    assert_eq!(cryputil::menu::yes_no_key("JA"), None);
    assert_eq!(cryputil::menu::yes_no("JA"), Some(true));
    assert_eq!(frequency_analysis::reference_for_key("de").unwrap(), ("Deutsch", true));
    assert_eq!(frequency_analysis::reference_for_key("english").unwrap(), ("Englisch", false));
    assert!(frequency_analysis::reference_for_key("DE").is_err());
}
