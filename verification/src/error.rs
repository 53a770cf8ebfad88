//! The error type of all computations.
use vstd::prelude::*;
use crate::text::push_str;

verus! {

/// Why a computation was refused.
#[derive(Debug, Clone)]
pub enum CalcError {
    UngueltigeEingabe(String),
    DivisionDurchNull,
    KeinInverses(String),
    NichtPrim(String),
    KeineLoesung(String),
    Bereich(String),
}

/// Result of a computation.
pub type CalcResult<T> = Result<T, CalcError>;

/// The displayed message of an error: a fixed prefix per kind, then the detail.
pub open spec fn message_view(e: CalcError) -> Seq<char> {
    match e {
        CalcError::UngueltigeEingabe(s) => "Ungültige Eingabe: "@ + s@,
        CalcError::DivisionDurchNull => "Division durch Null"@,
        CalcError::KeinInverses(s) => "Kein multiplikatives Inverses: "@ + s@,
        CalcError::NichtPrim(s) => "Wert ist nicht prim: "@ + s@,
        CalcError::KeineLoesung(s) => "Keine Lösung gefunden: "@ + s@,
        CalcError::Bereich(s) => "Wert außerhalb des erlaubten Bereichs: "@ + s@,
    }
}

impl CalcError {
    /// The human-readable message (what the error displays as).
    pub fn message(&self) -> (m: String)
        ensures
            m@ == message_view(*self),
    {
        match self {
            CalcError::UngueltigeEingabe(s) => {
                let mut m = String::from_str("Ungültige Eingabe: ");
                push_str(&mut m, s.as_str());
                m
            },
            CalcError::DivisionDurchNull => String::from_str("Division durch Null"),
            CalcError::KeinInverses(s) => {
                let mut m = String::from_str("Kein multiplikatives Inverses: ");
                push_str(&mut m, s.as_str());
                m
            },
            CalcError::NichtPrim(s) => {
                let mut m = String::from_str("Wert ist nicht prim: ");
                push_str(&mut m, s.as_str());
                m
            },
            CalcError::KeineLoesung(s) => {
                let mut m = String::from_str("Keine Lösung gefunden: ");
                push_str(&mut m, s.as_str());
                m
            },
            CalcError::Bereich(s) => {
                let mut m = String::from_str("Wert außerhalb des erlaubten Bereichs: ");
                push_str(&mut m, s.as_str());
                m
            },
        }
    }
}

} // verus!
