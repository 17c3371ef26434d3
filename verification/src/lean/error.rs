//! Errors of the Lean integration.

use vstd::prelude::*;
use crate::kernel::show::{decimal, decimal_string};

verus! {

/// Errors of the Lean integration.
#[derive(Debug, Clone, PartialEq)]
pub enum LeanError {
    /// Translation failed
    Translation(String),
    /// Universe level not supported
    UniverseLevel(u32),
    /// Variable not found
    UnboundVariable(String),
    /// Type mismatch
    TypeMismatch {
        expected: String,
        actual: String,
    },
    /// Unsupported term
    UnsupportedTerm(String),
    /// Name resolution failed
    NameResolution(String),
    /// Context error
    Context(String),
    /// Internal error
    Internal(String),
}

/// The abstract content of an error: its kind and texts.
pub enum SemLeanErr {
    Translation(Seq<char>),
    UniverseLevel(u32),
    UnboundVariable(Seq<char>),
    TypeMismatch(Seq<char>, Seq<char>),
    UnsupportedTerm(Seq<char>),
    NameResolution(Seq<char>),
    Context(Seq<char>),
    Internal(Seq<char>),
}

impl View for LeanError {
    type V = SemLeanErr;

    open spec fn view(&self) -> SemLeanErr {
        match self {
            LeanError::Translation(m) => SemLeanErr::Translation(m@),
            LeanError::UniverseLevel(l) => SemLeanErr::UniverseLevel(*l),
            LeanError::UnboundVariable(m) => SemLeanErr::UnboundVariable(m@),
            LeanError::TypeMismatch { expected, actual } => SemLeanErr::TypeMismatch(expected@, actual@),
            LeanError::UnsupportedTerm(m) => SemLeanErr::UnsupportedTerm(m@),
            LeanError::NameResolution(m) => SemLeanErr::NameResolution(m@),
            LeanError::Context(m) => SemLeanErr::Context(m@),
            LeanError::Internal(m) => SemLeanErr::Internal(m@),
        }
    }
}

/// The text an error is shown as.
pub open spec fn error_text(e: SemLeanErr) -> Seq<char> {
    match e {
        SemLeanErr::Translation(m) => "Translation failed: "@ + m,
        SemLeanErr::UniverseLevel(l) => "Universe level "@ + decimal(l as nat) + " not supported"@,
        SemLeanErr::UnboundVariable(m) => "Variable not found: "@ + m,
        SemLeanErr::TypeMismatch(e, a) => "Type mismatch: expected "@ + e + ", got "@ + a,
        SemLeanErr::UnsupportedTerm(m) => "Unsupported term: "@ + m,
        SemLeanErr::NameResolution(m) => "Name resolution failed: "@ + m,
        SemLeanErr::Context(m) => "Context error: "@ + m,
        SemLeanErr::Internal(m) => "Internal error: "@ + m,
    }
}

fn prefixed(prefix: &str, text: &String) -> (r: String)
    ensures
        r@ == prefix@ + text@,
{
    let mut s = String::from_str(prefix);
    s.append(text.as_str());
    s
}

impl LeanError {
    /// The text the error is shown as
    pub fn to_display_string(&self) -> (r: String)
        ensures
            r@ == error_text(self@),
    {
        match self {
            LeanError::Translation(m) => {
                proof { reveal_strlit("Translation failed: "); }
                prefixed("Translation failed: ", m)
            },
            LeanError::UniverseLevel(l) => {
                let mut s = String::from_str("Universe level ");
                s.append(decimal_string(*l as u64).as_str());
                s.append(" not supported");
                proof {
                    reveal_strlit("Universe level ");
                    reveal_strlit(" not supported");
                }
                s
            },
            LeanError::UnboundVariable(m) => {
                proof { reveal_strlit("Variable not found: "); }
                prefixed("Variable not found: ", m)
            },
            LeanError::TypeMismatch { expected, actual } => {
                let mut s = String::from_str("Type mismatch: expected ");
                s.append(expected.as_str());
                s.append(", got ");
                s.append(actual.as_str());
                proof {
                    reveal_strlit("Type mismatch: expected ");
                    reveal_strlit(", got ");
                }
                s
            },
            LeanError::UnsupportedTerm(m) => {
                proof { reveal_strlit("Unsupported term: "); }
                prefixed("Unsupported term: ", m)
            },
            LeanError::NameResolution(m) => {
                proof { reveal_strlit("Name resolution failed: "); }
                prefixed("Name resolution failed: ", m)
            },
            LeanError::Context(m) => {
                proof { reveal_strlit("Context error: "); }
                prefixed("Context error: ", m)
            },
            LeanError::Internal(m) => {
                proof { reveal_strlit("Internal error: "); }
                prefixed("Internal error: ", m)
            },
        }
    }
}

/// Result type for the Lean integration
pub type LeanResult<T> = Result<T, LeanError>;

impl LeanError {
    /// A translation error
    pub fn translation(msg: String) -> (r: Self)
        ensures
            r == LeanError::Translation(msg),
    {
        LeanError::Translation(msg)
    }

    /// An unsupported-term error, with the term's rendering
    pub fn unsupported_term(term: String) -> (r: Self)
        ensures
            r == LeanError::UnsupportedTerm(term),
    {
        LeanError::UnsupportedTerm(term)
    }

    /// A name-resolution error
    pub fn name_resolution(msg: String) -> (r: Self)
        ensures
            r == LeanError::NameResolution(msg),
    {
        LeanError::NameResolution(msg)
    }

    /// A context error
    pub fn context(msg: String) -> (r: Self)
        ensures
            r == LeanError::Context(msg),
    {
        LeanError::Context(msg)
    }

    /// An internal error
    pub fn internal(msg: String) -> (r: Self)
        ensures
            r == LeanError::Internal(msg),
    {
        LeanError::Internal(msg)
    }
}

} // verus!
