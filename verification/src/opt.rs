//! The options of one invocation, as the command line hands them over.

use vstd::prelude::*;

use crate::choice::Choice;

verus! {

/// The options of one invocation. The command-line front end fills this
/// in; the library only reads it.
#[derive(Debug)]
pub struct Opt {
    /// Choose fields by character number.
    pub character_wise: bool,
    /// Activate debug mode.
    pub debug: bool,
    /// Use exclusive ranges, similar to array indexing in many languages.
    pub exclusive: bool,
    /// Field separator other than whitespace, in `regex` syntax.
    pub field_separator: Option<String>,
    /// Input file, if input is not to be read from standard input.
    pub input: Option<String>,
    /// Use non-greedy field separators: keep empty fields.
    pub non_greedy: bool,
    /// Index from 1 instead of 0.
    pub one_indexed: bool,
    /// Output field separator, after escape processing.
    pub output_field_separator: Option<String>,
    /// The fields to print, in the order they were given.
    pub choices: Vec<Choice>,
}

} // verus!
