//! Bidirectional type checking with constraint solving.

pub mod context;
pub mod constraints;
pub mod checker;
pub mod inference;

pub use context::{Context, ContextEntry, LocalContext};
pub use checker::{TypeChecker, check_term, infer_type};
pub use constraints::{Constraint, ConstraintSolver, UnificationError};
pub use inference::MetavarGenerator;

use vstd::prelude::*;
use crate::kernel::{Term, Value, Level};
use crate::kernel::value::SemVal;
use self::constraints::{SemUErr, UnificationError as UErr};
use self::checker::{spec_check, spec_infer, spec_universe_level, fresh_solver, meta_count};

verus! {

/// Type checking errors
#[derive(Debug, Clone, PartialEq)]
pub enum CheckError {
    /// The inferred type is not convertible to the expected one
    TypeMismatch {
        expected: Value,
        actual: Value,
        term: Term,
    },
    /// Variable index out of the context
    UnboundVariable(usize),
    /// Universe levels differ
    UniverseMismatch {
        expected_level: Level,
        actual_level: Level,
    },
    /// The type of the term cannot be synthesized
    CannotInfer(Term),
    /// A non-function was applied
    NotAFunction {
        function_type: Value,
        argument: Term,
    },
    /// Constraint solving failed
    ConstraintError(UErr),
    /// A metavariable occurs in its own solution
    OccursCheck {
        metavar: usize,
        term: Term,
    },
    /// A type that should be a universe is not
    InvalidLevel(String),
}

/// Abstract type checking errors.
pub enum SemCheckErr {
    TypeMismatch(SemVal, SemVal, Term),
    UnboundVariable(usize),
    UniverseMismatch(Level, Level),
    CannotInfer(Term),
    NotAFunction(SemVal, Term),
    ConstraintError(SemUErr),
    OccursCheck(usize, Term),
    InvalidLevel(Seq<char>),
}

impl View for CheckError {
    type V = SemCheckErr;

    open spec fn view(&self) -> SemCheckErr {
        match *self {
            CheckError::TypeMismatch { expected, actual, term } => SemCheckErr::TypeMismatch(expected@, actual@, term),
            CheckError::UnboundVariable(i) => SemCheckErr::UnboundVariable(i),
            CheckError::UniverseMismatch { expected_level, actual_level } => SemCheckErr::UniverseMismatch(expected_level, actual_level),
            CheckError::CannotInfer(t) => SemCheckErr::CannotInfer(t),
            CheckError::NotAFunction { function_type, argument } => SemCheckErr::NotAFunction(function_type@, argument),
            CheckError::ConstraintError(e) => SemCheckErr::ConstraintError(e@),
            CheckError::OccursCheck { metavar, term } => SemCheckErr::OccursCheck(metavar, term),
            CheckError::InvalidLevel(s) => SemCheckErr::InvalidLevel(s@),
        }
    }
}

impl From<UErr> for CheckError {
    fn from(err: UErr) -> (r: Self) {
        CheckError::ConstraintError(err)
    }
}

impl vstd::std_specs::convert::FromSpecImpl<UErr> for CheckError {
    open spec fn obeys_from_spec() -> bool {
        true
    }

    open spec fn from_spec(err: UErr) -> CheckError {
        CheckError::ConstraintError(err)
    }
}

/// Result type for type checking operations
pub type CheckResult<T> = Result<T, CheckError>;

/// The abstract content of a checking result.
pub open spec fn cres_view(r: CheckResult<()>) -> Result<(), SemCheckErr> {
    match r {
        Ok(_) => Ok(()),
        Err(e) => Err(e@),
    }
}

/// Check a term against an expected type
pub fn check(term: &Term, expected_type: &Value, context: &Context) -> (r: CheckResult<()>)
    requires
        meta_count(*term) <= usize::MAX,
    ensures
        cres_view(r) == spec_check(*term, expected_type@, context@, fresh_solver()).0,
{
    let mut checker = TypeChecker::new();
    checker.check(term, expected_type, context)
}

/// Infer the type of a term
pub fn infer(term: &Term, context: &Context) -> (r: CheckResult<Value>)
    requires
        meta_count(*term) <= usize::MAX,
    ensures
        match r {
            Ok(v) => Ok(v@),
            Err(e) => Err(e@),
        } == spec_infer(*term, context@, fresh_solver()).0,
{
    let mut checker = TypeChecker::new();
    checker.infer(term, context)
}

/// Check that a term is a type, and return its universe level
pub fn check_type(typ: &Term, context: &Context) -> (r: CheckResult<Level>)
    requires
        meta_count(*typ) <= usize::MAX,
    ensures
        match r {
            Ok(l) => Ok(l),
            Err(e) => Err(e@),
        } == match spec_infer(*typ, context@, fresh_solver()).0 {
            Ok(t) => spec_universe_level(t),
            Err(e) => Err(e),
        },
{
    let mut checker = TypeChecker::new();
    let inferred_type = match checker.infer(typ, context) {
        Ok(t) => t,
        Err(e) => return Err(e),
    };
    match inferred_type {
        Value::Universe(level) => Ok(level),
        _ => {
            let mut msg = String::from_str("Expected universe, got ");
            msg.append(inferred_type.to_display_string().as_str());
            Err(CheckError::InvalidLevel(msg))
        },
    }
}

/// Convert a De Bruijn index to a level in a context of the given length
pub fn index_to_level(index: usize, context_length: usize) -> (r: Option<usize>)
    ensures
        r == if index < context_length { Some((context_length - 1 - index) as usize) } else { None::<usize> },
{
    if index < context_length {
        Some(context_length - 1 - index)
    } else {
        None
    }
}

/// Convert a De Bruijn level to an index in a context of the given length
pub fn level_to_index(level: usize, context_length: usize) -> (r: Option<usize>)
    ensures
        r == if level < context_length { Some((context_length - 1 - level) as usize) } else { None::<usize> },
{
    if level < context_length {
        Some(context_length - 1 - level)
    } else {
        None
    }
}

} // verus!
