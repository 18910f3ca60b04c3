//! A small Lisp dialect: a reader, a runtime object model with tagged
//! objects, lists, interned symbols and function descriptors, and a
//! closure compiler and evaluator, with the behaviour of every part
//! stated as a functional specification and proved in Verus.
//!
//! The pieces, leaves first: `text` holds small string helpers; `lexer`
//! and `reader` turn source text into forms; `repr` lowers forms to
//! expressions and computes the free variables of every lambda; `defs`
//! is the object ABI over the `Runtime` arena; `symbols` the interner;
//! `exceptions` the channel that carries a raised error's message to the
//! handler; `predefined` the built-in functions; and `eval` the closure
//! compiler and the fuelled evaluator.

use vstd::prelude::*;

pub mod text;
pub mod error;
pub mod lexer;
pub mod repr;
pub mod reader;
pub mod defs;
pub mod symbols;
pub mod predefined;
pub mod eval;
pub mod exceptions;

verus! {

/// The crate-wide bound on evaluation steps: evaluation is fuelled, and a
/// budget of this size is more than any of the driver's inputs consume.
pub const DEFAULT_FUEL: u64 = 1_000_000;

} // verus!
