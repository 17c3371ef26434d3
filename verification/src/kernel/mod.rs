//! Core data structures: terms, values, substitutions and names.

pub mod term;
pub mod value;
pub mod subst;
pub mod show;
pub mod name;
pub mod properties;

pub use term::{Term, Level};
pub use value::{Value, Closure, Environment, Neutral};
pub use subst::{Substitution, apply_substitution, shift_term, substitute_top};

use vstd::prelude::*;

verus! {

/// Index counted from the innermost binder.
pub type DeBruijnIndex = usize;
/// Level counted from the outermost binder.
pub type DeBruijnLevel = usize;
/// Number of binders passed.
pub type BindingDepth = usize;

} // verus!
