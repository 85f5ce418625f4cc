//! Field selection for lines of text: parse range selections such as `1:3`,
//! `..=2` or `-3:-1`, split a line into tokens by whitespace, a literal
//! character or a pattern, resolve each range against the token sequence, and
//! join the selected tokens with an output separator.

#![verifier::loop_isolation(false)]

pub mod chars;
pub mod choice;
pub mod config;
pub mod error;
pub mod escape;
pub mod opt;
pub mod parse;
pub mod parse_error;
pub mod pattern;
pub mod split;
pub mod writer;
