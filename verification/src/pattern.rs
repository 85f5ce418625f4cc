//! Splitting a line with a user-supplied pattern, through the `regex`
//! crate. The compiled pattern is carried next to its source text, and
//! what a split returns is named as a function of that text and the line.

use vstd::prelude::*;

use crate::split::views_of;

verus! {

#[verifier::external_type_specification]
#[verifier::external_body]
pub struct ExRegex(regex::Regex);

/// The substrings of `line` that are left between the matches of the
/// pattern `pattern`, as `regex::Regex::split` yields them: a function of
/// the pattern and the line alone.
pub uninterp spec fn pattern_split_of(pattern: Seq<char>, line: Seq<char>) -> Seq<Seq<char>>;

/// A compiled pattern together with the text it was compiled from. The
/// fields stay private so that the two can never drift apart: only
/// `compile_pattern` builds a value.
pub struct SplitPattern {
    pattern: String,
    re: regex::Regex,
}

/// Relies on regex::Regex::new: compiles the pattern, or reports why it
/// cannot be compiled. On success the returned value carries the compiled
/// pattern beside its source text.
#[verifier::external_body]
pub fn compile_pattern(pattern: &str) -> (r: Result<SplitPattern, String>)
    ensures
        r matches Ok(sp) ==> sp.spec_pattern() == pattern@,
{
    match regex::Regex::new(pattern) {
        Ok(re) => Ok(SplitPattern { pattern: pattern.to_owned(), re }),
        Err(regex::Error::Syntax(e)) => Err(
            format!("Syntax error compiling regular expression: {}", e),
        ),
        Err(regex::Error::CompiledTooBig(e)) => Err(
            format!(
                "Compiled regular expression too big: compiled size cannot exceed {} bytes",
                e,
            ),
        ),
        Err(e) => Err(format!("Error compiling regular expression: {}", e)),
    }
}

impl SplitPattern {
    /// The text this pattern was compiled from.
    pub closed spec fn spec_pattern(self) -> Seq<char> {
        self.pattern@
    }

    /// The text this pattern was compiled from.
    pub fn pattern(&self) -> (r: &str)
        ensures
            r@ == self.spec_pattern(),
    {
        self.pattern.as_str()
    }

    /// Relies on regex::Regex::split: the parts of the line that are not
    /// matched by the pattern, in order.
    #[verifier::external_body]
    pub fn split_line(&self, line: &str) -> (r: Vec<String>)
        ensures
            views_of(r@) == pattern_split_of(self.spec_pattern(), line@),
    {
        self.re.split(line).map(|t| t.to_owned()).collect()
    }
}

} // verus!
