//! Error types for configuration and range resolution.

use vstd::prelude::*;

verus! {

/// An error raised while checking a configuration or resolving a range
/// against a line.
#[derive(Debug)]
pub enum Error {
    /// A range expression could not be parsed.
    ParseRange(ParseRangeError),
    /// The configuration is unusable; the string says why.
    Config(String),
}

/// The range expression that could not be parsed, kept for reporting.
#[derive(Debug)]
pub struct ParseRangeError {
    source_str: String,
}

impl ParseRangeError {
    /// The offending text as it was given.
    pub closed spec fn text(self) -> Seq<char> {
        self.source_str@
    }

    pub fn new(source_str: &str) -> (r: Self)
        ensures
            r.text() == source_str@,
    {
        ParseRangeError { source_str: source_str.to_owned() }
    }

    /// The offending text, for error reporting.
    pub fn message(&self) -> (r: &str)
        ensures
            r@ == self.text(),
    {
        self.source_str.as_str()
    }
}

} // verus!
