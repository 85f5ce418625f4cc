//! The configuration of one invocation: the separator that turns a line
//! into tokens, the adjusted choices, and the output separator.

use vstd::prelude::*;
use vstd::string::StringExecFns;

use crate::chars::char_is_alphanumeric;
use crate::chars::is_unicode_alphanumeric;
use crate::chars::str_chars;
use crate::chars::chars_string;
use crate::choice::Choice;
use crate::choice::ChoiceKind;
use crate::error::Error;
use crate::opt::Opt;
use crate::pattern::SplitPattern;
use crate::pattern::compile_pattern;
use crate::pattern::pattern_split_of;
use crate::split::char_split;
use crate::split::keep_nonempty;
use crate::split::keep_nonempty_spec;
use crate::split::split_on_char;
use crate::split::split_on_whitespace;
use crate::split::views_of;
use crate::split::whitespace_split;

verus! {

/// How a line is resolved into tokens: on runs of whitespace, on every
/// occurrence of one literal character, or between the matches of a
/// compiled pattern.
pub enum Separator {
    Whitespace,
    LiteralChar(char),
    Pattern(SplitPattern),
}

/// The tokens a separator makes of a line, empty tokens included.
pub open spec fn separator_split(sep: Separator, line: Seq<char>) -> Seq<Seq<char>> {
    match sep {
        Separator::Whitespace => whitespace_split(line),
        Separator::LiteralChar(c) => char_split(line, c),
        Separator::Pattern(sp) => pattern_split_of(sp.spec_pattern(), line),
    }
}

impl Separator {
    /// Turn one line into its ordered tokens.
    pub fn split(&self, line: &str) -> (r: Vec<String>)
        ensures
            views_of(r@) == separator_split(*self, line@),
    {
        match self {
            Separator::Whitespace => {
                let cs = str_chars(line);
                split_on_whitespace(&cs)
            },
            Separator::LiteralChar(c) => {
                let cs = str_chars(line);
                split_on_char(&cs, *c)
            },
            Separator::Pattern(sp) => sp.split_line(line),
        }
    }
}

/// What an escaped character in a would-be pattern stands for, where the
/// escape makes it a literal.
pub open spec fn escape_literal(c: char) -> Option<char> {
    if c == 't' {
        Some('\t')
    } else if c == '^' || c == '$' || c == '\\' || c == '.' || c == '*' || c == '(' || c == ')'
        || c == '{' || c == '}' || c == '[' || c == ']' || c == '|' {
        Some(c)
    } else {
        None
    }
}

/// The single characters that carry no special meaning in a pattern.
pub open spec fn plain_literal(c: char) -> bool {
    c == ' ' || c == '!' || c == '@' || c == '#' || c == '%' || c == '&' || c == ',' || c == ':'
        || c == ';' || c == '<' || c == '>'
}

/// The character that a pattern matches literally, where the pattern is
/// recognized as matching only literal occurrences of one character.
pub open spec fn literal_char_of(s: Seq<char>) -> Option<char> {
    if s.len() == 1 && (s[0] as u32) < 128 && is_unicode_alphanumeric(s[0]) {
        Some(s[0])
    } else if s.len() == 1 && plain_literal(s[0]) {
        Some(s[0])
    } else if s.len() == 2 && s[0] == '\\' {
        escape_literal(s[1])
    } else {
        None
    }
}

/// Recognize a pattern that would match only literal occurrences of one
/// specific character, and return that character.
///
/// This backs a fast path that avoids pattern matching where it gains
/// nothing, so missing a literal pattern is acceptable, while wrongly
/// claiming one would break field separation.
pub fn regex_is_literal_char(s: &str) -> (r: Option<char>)
    ensures
        r == literal_char_of(s@),
{
    let cs = str_chars(s);
    if cs.len() == 1 {
        let c = cs[0];
        if (c as u32) < 128 && char_is_alphanumeric(c) {
            return Some(c);
        }
        if c == ' ' || c == '!' || c == '@' || c == '#' || c == '%' || c == '&' || c == ',' || c
            == ':' || c == ';' || c == '<' || c == '>' {
            return Some(c);
        }
        return None;
    }
    if cs.len() == 2 && cs[0] == '\\' {
        let c = cs[1];
        if c == 't' {
            return Some('\t');
        }
        if c == '^' || c == '$' || c == '\\' || c == '.' || c == '*' || c == '(' || c == ')' || c
            == '{' || c == '}' || c == '[' || c == ']' || c == '|' {
            return Some(c);
        }
        return None;
    }
    None
}

/// One choice after the one-time bound rewriting: exclusivity moves the
/// open bound inward, and one-indexing shifts positive bounds down.
/// The flags are left as construction derived them.
pub open spec fn adjusted_choice(c: Choice, exclusive: bool, one_indexed: bool) -> Choice {
    let c1 = if (exclusive && c.kind == ChoiceKind::ColonRange) || c.kind
        == ChoiceKind::RustExclusiveRange {
        if c.reversed {
            Choice {
                start: (c.start - 1) as isize,
                end: c.end,
                kind: c.kind,
                negative_index: c.negative_index,
                reversed: c.reversed,
            }
        } else {
            Choice {
                start: c.start,
                end: (c.end - 1) as isize,
                kind: c.kind,
                negative_index: c.negative_index,
                reversed: c.reversed,
            }
        }
    } else {
        c
    };
    if one_indexed {
        Choice {
            start: if c1.start > 0 {
                (c1.start - 1) as isize
            } else {
                c1.start
            },
            end: if c1.end > 0 {
                (c1.end - 1) as isize
            } else {
                c1.end
            },
            kind: c1.kind,
            negative_index: c1.negative_index,
            reversed: c1.reversed,
        }
    } else {
        c1
    }
}

/// When the one-time rewriting cannot be done: the bound to move inward
/// already holds the minimum representable value.
pub open spec fn adjust_overflow(c: Choice, exclusive: bool) -> bool {
    &&& ((exclusive && c.kind == ChoiceKind::ColonRange) || c.kind == ChoiceKind::RustExclusiveRange)
    &&& if c.reversed {
        c.start == isize::MIN
    } else {
        c.end == isize::MIN
    }
}

/// The rewriting keeps the invariant that resolution relies on.
pub proof fn lemma_adjusted_wf(c: Choice, exclusive: bool, one_indexed: bool)
    requires
        c.flags_derived(),
        !adjust_overflow(c, exclusive),
    ensures
        adjusted_choice(c, exclusive, one_indexed).wf(),
{
}

/// The output separator in effect: the one given, or a single space,
/// or nothing at all in character-wise mode.
pub open spec fn output_sep_of(character_wise: bool, ofs: Option<String>) -> Seq<char> {
    match ofs {
        Some(s) => s@,
        None => if character_wise {
            Seq::empty()
        } else {
            " "@
        },
    }
}

/// The configuration of one invocation, built once from the options.
pub struct Config {
    pub opt: Opt,
    pub separator: Separator,
    pub output_separator: String,
}

/// The separator agrees with the configured field separator: whitespace
/// when none is given, the literal character where the pattern is
/// recognized as one, and otherwise the compiled pattern itself.
pub open spec fn separator_matches(sep: Separator, field_separator: Option<String>) -> bool {
    match field_separator {
        None => sep is Whitespace,
        Some(s) => match literal_char_of(s@) {
            Some(c) => sep matches Separator::LiteralChar(lc) && lc == c,
            None => sep matches Separator::Pattern(sp) && sp.spec_pattern() == s@,
        },
    }
}

impl Config {
    /// Whether every choice satisfies the invariant that resolution
    /// relies on.
    pub open spec fn choices_wf(self) -> bool {
        forall|i: int|
            0 <= i < self.opt.choices@.len() ==> (#[trigger] self.opt.choices@[i]).wf()
    }

    /// Build the configuration: rewrite each choice once for exclusivity
    /// and one-indexing, pick the separator, and fix the output
    /// separator. Fails when a bound cannot be rewritten or the field
    /// separator cannot be compiled.
    pub fn new(opt: Opt) -> (r: Result<Config, Error>)
        requires
            forall|i: int|
                0 <= i < opt.choices@.len() ==> (#[trigger] opt.choices@[i]).flags_derived(),
        ensures
            r matches Ok(cfg) ==> {
                &&& cfg.opt.character_wise == opt.character_wise
                &&& cfg.opt.debug == opt.debug
                &&& cfg.opt.exclusive == opt.exclusive
                &&& cfg.opt.field_separator == opt.field_separator
                &&& cfg.opt.input == opt.input
                &&& cfg.opt.non_greedy == opt.non_greedy
                &&& cfg.opt.one_indexed == opt.one_indexed
                &&& cfg.opt.output_field_separator == opt.output_field_separator
                &&& cfg.opt.choices@.len() == opt.choices@.len()
                &&& forall|i: int|
                    0 <= i < opt.choices@.len() ==> (#[trigger] cfg.opt.choices@[i])
                        == adjusted_choice(opt.choices@[i], opt.exclusive, opt.one_indexed)
                &&& cfg.choices_wf()
                &&& separator_matches(cfg.separator, opt.field_separator)
                &&& cfg.output_separator@ == output_sep_of(
                    opt.character_wise,
                    opt.output_field_separator,
                )
            },
            r is Err ==> (exists|i: int|
                0 <= i < opt.choices@.len() && adjust_overflow(
                    #[trigger] opt.choices@[i],
                    opt.exclusive,
                )) || (opt.field_separator matches Some(s) && literal_char_of(s@) is None),
            (exists|i: int|
                0 <= i < opt.choices@.len() && adjust_overflow(
                    #[trigger] opt.choices@[i],
                    opt.exclusive,
                )) ==> r is Err,
            r matches Err(e) ==> e is Config,
    {
        let ghost opt0 = opt;
        let mut opt = opt;
        let n = opt.choices.len();
        let mut new_choices: Vec<Choice> = Vec::new();
        let mut i: usize = 0;
        while i < n
            invariant
                i <= n == opt.choices@.len(),
                forall|j: int|
                    0 <= j < opt.choices@.len() ==> (#[trigger] opt.choices@[j]).flags_derived(),
                forall|j: int|
                    0 <= j < i ==> !adjust_overflow(#[trigger] opt.choices@[j], opt.exclusive),
                new_choices@.len() == i,
                forall|j: int|
                    0 <= j < i ==> (#[trigger] new_choices@[j]) == adjusted_choice(
                        opt.choices@[j],
                        opt.exclusive,
                        opt.one_indexed,
                    ),
            decreases n - i,
        {
            let c = opt.choices[i];
            let exclusive_kind = (opt.exclusive && c.kind == ChoiceKind::ColonRange) || c.kind
                == ChoiceKind::RustExclusiveRange;
            let c1 = if exclusive_kind {
                if c.is_reverse_range() {
                    if c.start == isize::MIN {
                        proof {
                            assert(adjust_overflow(opt.choices@[i as int], opt.exclusive));
                        }
                        return Err(Error::Config(crate::choice::min_index_message()));
                    }
                    Choice {
                        start: c.start - 1,
                        end: c.end,
                        kind: c.kind,
                        negative_index: c.negative_index,
                        reversed: c.reversed,
                    }
                } else {
                    if c.end == isize::MIN {
                        proof {
                            assert(adjust_overflow(opt.choices@[i as int], opt.exclusive));
                        }
                        return Err(Error::Config(crate::choice::min_index_message()));
                    }
                    Choice {
                        start: c.start,
                        end: c.end - 1,
                        kind: c.kind,
                        negative_index: c.negative_index,
                        reversed: c.reversed,
                    }
                }
            } else {
                c
            };
            let c2 = if opt.one_indexed {
                Choice {
                    start: if c1.start > 0 {
                        c1.start - 1
                    } else {
                        c1.start
                    },
                    end: if c1.end > 0 {
                        c1.end - 1
                    } else {
                        c1.end
                    },
                    kind: c1.kind,
                    negative_index: c1.negative_index,
                    reversed: c1.reversed,
                }
            } else {
                c1
            };
            new_choices.push(c2);
            i += 1;
        }
        opt.choices = new_choices;

        let separator = match &opt.field_separator {
            Some(s) => {
                match regex_is_literal_char(s.as_str()) {
                    Some(c) => Separator::LiteralChar(c),
                    None => match compile_pattern(s.as_str()) {
                        Ok(sp) => Separator::Pattern(sp),
                        Err(msg) => {
                            return Err(Error::Config(msg));
                        },
                    },
                }
            },
            None => Separator::Whitespace,
        };

        let output_separator = match &opt.output_field_separator {
            Some(s) => s.clone(),
            None => if opt.character_wise {
                String::new()
            } else {
                String::from_str(" ")
            },
        };

        proof {
            assert forall|j: int| 0 <= j < opt.choices@.len() implies (
            #[trigger] opt.choices@[j]).wf() by {
                lemma_adjusted_wf(opt0.choices@[j], opt0.exclusive, opt0.one_indexed);
            }
        }

        Ok(Config { opt, separator, output_separator })
    }
}

/// The tokens of a line in character-wise mode: each character of the
/// line on its own.
pub open spec fn charwise_tokens(line: Seq<char>) -> Seq<Seq<char>> {
    Seq::new(line.len(), |i: int| seq![line[i]])
}

/// The token sequence that a configuration makes of one line: the
/// characters themselves in character-wise mode, and otherwise the
/// separator's tokens, with empty tokens dropped unless splitting is
/// non-greedy.
pub open spec fn line_tokens(cfg: Config, line: Seq<char>) -> Seq<Seq<char>> {
    if cfg.opt.character_wise {
        charwise_tokens(line)
    } else if cfg.opt.non_greedy {
        separator_split(cfg.separator, line)
    } else {
        keep_nonempty_spec(separator_split(cfg.separator, line))
    }
}

impl Config {
    /// Turn one line into the token sequence that every choice of this
    /// configuration is resolved against.
    pub fn tokenize(&self, line: &str) -> (r: Vec<String>)
        ensures
            views_of(r@) == line_tokens(*self, line@),
    {
        if self.opt.character_wise {
            let cs = str_chars(line);
            let n = cs.len();
            let mut out: Vec<String> = Vec::new();
            let mut i: usize = 0;
            while i < n
                invariant
                    i <= n == cs@.len(),
                    cs@ == line@,
                    out@.len() == i,
                    forall|j: int| 0 <= j < i ==> (#[trigger] out@[j])@ == seq![line@[j]],
                decreases n - i,
            {
                let mut one: Vec<char> = Vec::new();
                one.push(cs[i]);
                let s = chars_string(&one);
                proof {
                    assert(s@ =~= seq![line@[i as int]]);
                }
                out.push(s);
                i += 1;
            }
            proof {
                assert(views_of(out@) =~~= charwise_tokens(line@));
            }
            out
        } else {
            let raw = self.separator.split(line);
            if self.opt.non_greedy {
                raw
            } else {
                keep_nonempty(&raw)
            }
        }
    }
}

} // verus!
