//! Lean terms, names and the context for translating between named Lean
//! terms and De Bruijn terms.

pub mod types;
pub mod error;
pub mod context;

pub use types::{LeanTerm, LeanLevel, LeanName};
pub mod translation;
pub mod mathlib;
pub mod parallel;
pub mod roundtrip;
pub mod environment;
pub mod optimize;
pub mod server;
pub mod cache;
