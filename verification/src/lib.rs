//! TTT - Tiny Type Theory
//!
//! A dependent type theory kernel with normalization by evaluation and
//! bidirectional type checking, verified with Verus.

pub mod kernel;
pub mod shared;
pub mod assoc;
pub mod eval;
pub mod typeck;
pub mod lean;
pub mod term;
pub mod types;
pub mod arena;
pub mod check;
pub mod compress;
pub mod nbe;
pub mod optimize;
pub mod text;
