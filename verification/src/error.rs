//! The reader's error type.

use vstd::prelude::*;
use vstd::string::StringExecFns;

verus! {

/// An error reported while reading source text into forms.
#[derive(Debug, Clone)]
pub struct SyntaxError {
    message: String,
}

impl SyntaxError {
    pub fn new(message: &str) -> (e: SyntaxError)
        ensures
            e@ == message@,
    {
        SyntaxError { message: String::from_str(message) }
    }

    /// The human-readable description of the error.
    pub fn message(&self) -> (m: &String)
        ensures
            m@ == self@,
    {
        &self.message
    }

    /// The description, as contracts speak of it.
    pub closed spec fn view(&self) -> Seq<char> {
        self.message@
    }
}

} // verus!
