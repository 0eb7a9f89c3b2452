//! A style-conformance checker for C source text.
//!
//! Each rule scans a file's text line by line and returns positional
//! diagnostics of the form `[file:line]message.`; an empty result means the
//! file conforms to that rule.

pub mod brace;
pub mod comment;
pub mod control_structures;
pub mod function;
pub mod indentation;
pub mod laws;
pub mod misc;
pub mod naming;
pub mod preprocessor;
pub mod space;
pub mod text;

use vstd::prelude::*;

verus! {

/// A check that every style rule implements: a pure function from a file's
/// name and content to an ordered sequence of diagnostics.
pub trait Rule {
    fn verify(&self, filename: &str, content: &str) -> Vec<String>;
}

} // verus!
