//! Emission: what the selected tokens of a line print as. Each non-empty
//! token is preceded by the output separator unless it is the first
//! non-empty token of the line; empty tokens write nothing at all, not
//! even a separator.

use vstd::prelude::*;
use vstd::string::StringExecFns;

use crate::choice::Choice;
use crate::choice::ChoiceKind;
use crate::choice::choice_selection;
use crate::choice::min_index_msg;
use crate::choice::resolve_error;
use crate::config::Config;
use crate::config::line_tokens;
use crate::error::Error;
use crate::split::keep_nonempty_spec;
use crate::split::views_of;

verus! {

/// The tokens joined by the separator: the separator stands between
/// consecutive tokens, never before the first or after the last.
pub open spec fn joined(ts: Seq<Seq<char>>, sep: Seq<char>) -> Seq<char>
    decreases ts.len(),
{
    if ts.len() == 0 {
        Seq::empty()
    } else if ts.len() == 1 {
        ts[0]
    } else {
        joined(ts.drop_last(), sep) + sep + ts.last()
    }
}

/// What a run of selected tokens prints as: the non-empty ones among
/// them, joined by the output separator.
pub open spec fn join_fields(ts: Seq<Seq<char>>, sep: Seq<char>) -> Seq<char> {
    joined(keep_nonempty_spec(ts), sep)
}

/// The selections of all choices against one token sequence, concatenated
/// in the order the choices were given.
pub open spec fn selections_of(choices: Seq<Choice>, toks: Seq<Seq<char>>) -> Seq<Seq<char>>
    decreases choices.len(),
{
    if choices.len() == 0 {
        Seq::empty()
    } else {
        selections_of(choices.drop_last(), toks) + choice_selection(choices.last(), toks)
    }
}

/// Whether resolving any of the choices against a sequence of `len`
/// tokens fails.
pub open spec fn any_resolve_error(choices: Seq<Choice>, len: int) -> bool {
    exists|i: int| 0 <= i < choices.len() && resolve_error(#[trigger] choices[i], len)
}

/// What one line prints as under a configuration, without the trailing
/// line break.
pub open spec fn line_output(cfg: Config, line: Seq<char>) -> Seq<char> {
    join_fields(selections_of(cfg.opt.choices@, line_tokens(cfg, line)), cfg.output_separator@)
}

proof fn lemma_joined_push(ts: Seq<Seq<char>>, t: Seq<char>, sep: Seq<char>)
    ensures
        joined(ts.push(t), sep) == if ts.len() == 0 {
            t
        } else {
            joined(ts, sep) + sep + t
        },
{
    assert(ts.push(t).drop_last() =~= ts);
    assert(ts.push(t).last() == t);
}

/// Join the non-empty tokens with the separator, tracking whether a
/// non-empty token has been written rather than looking ahead.
pub fn join_tokens(toks: &Vec<String>, sep: &str) -> (r: String)
    ensures
        r@ == join_fields(views_of(toks@), sep@),
{
    let mut out = String::new();
    let mut started = false;
    let n = toks.len();
    let mut i: usize = 0;
    while i < n
        invariant
            i <= n == toks@.len(),
            out@ == joined(keep_nonempty_spec(views_of(toks@.take(i as int))), sep@),
            started == (keep_nonempty_spec(views_of(toks@.take(i as int))).len() > 0),
        decreases n - i,
    {
        proof {
            assert(views_of(toks@.take(i + 1 as int)).drop_last() =~= views_of(
                toks@.take(i as int),
            ));
            assert(views_of(toks@.take(i + 1 as int)).last() == toks@[i as int]@);
            lemma_joined_push(
                keep_nonempty_spec(views_of(toks@.take(i as int))),
                toks@[i as int]@,
                sep@,
            );
        }
        if !toks[i].as_str().is_empty() {
            if started {
                out.append(sep);
            }
            out.append(toks[i].as_str());
            started = true;
        }
        i += 1;
    }
    proof {
        assert(toks@.take(n as int) =~= toks@);
    }
    out
}

impl Choice {
    /// What this one choice prints as for a line: its selected tokens,
    /// joined by the configuration's output separator.
    pub fn print_choice(&self, line: &str, config: &Config) -> (r: Result<String, Error>)
        requires
            self.wf(),
        ensures
            r is Err <==> resolve_error(*self, line_tokens(*config, line@).len() as int),
            r matches Ok(out) ==> out@ == join_fields(
                choice_selection(*self, line_tokens(*config, line@)),
                config.output_separator@,
            ),
            r matches Err(e) ==> e matches Error::Config(m) && m@ == min_index_msg(),
    {
        let tokens = config.tokenize(line);
        proof {
            crate::choice::lemma_selection_views(*self, tokens@);
        }
        match self.resolve(&tokens) {
            Ok(sel) => Ok(join_tokens(&sel, config.output_separator.as_str())),
            Err(e) => Err(e),
        }
    }
}

/// Resolve every choice of the configuration against the line, in the
/// order the choices were given, and join everything selected into the
/// line that is printed.
pub fn process_line(config: &Config, line: &str) -> (r: Result<String, Error>)
    requires
        config.choices_wf(),
    ensures
        r is Err <==> any_resolve_error(
            config.opt.choices@,
            line_tokens(*config, line@).len() as int,
        ),
        r matches Ok(out) ==> out@ == line_output(*config, line@),
        r matches Err(e) ==> e matches Error::Config(m) && m@ == min_index_msg(),
{
    let tokens = config.tokenize(line);
    let mut selected: Vec<String> = Vec::new();
    let n = config.opt.choices.len();
    let mut i: usize = 0;
    while i < n
        invariant
            i <= n == config.opt.choices@.len(),
            config.choices_wf(),
            views_of(tokens@) == line_tokens(*config, line@),
            views_of(selected@) == selections_of(
                config.opt.choices@.take(i as int),
                views_of(tokens@),
            ),
            forall|j: int|
                0 <= j < i ==> !resolve_error(
                    #[trigger] config.opt.choices@[j],
                    tokens@.len() as int,
                ),
        decreases n - i,
    {
        proof {
            assert(config.opt.choices@.take(i + 1 as int).drop_last() =~= config.opt.choices@.take(
                i as int,
            ));
        }
        let c = config.opt.choices[i];
        proof {
            crate::choice::lemma_selection_views(c, tokens@);
        }
        match c.resolve(&tokens) {
            Ok(mut sel) => {
                selected.append(&mut sel);
                proof {
                    assert(views_of(selected@) =~= selections_of(
                        config.opt.choices@.take(i + 1 as int),
                        views_of(tokens@),
                    ));
                }
            },
            Err(e) => {
                return Err(e);
            },
        }
        i += 1;
    }
    proof {
        assert(config.opt.choices@.take(n as int) =~= config.opt.choices@);
    }
    Ok(join_tokens(&selected, config.output_separator.as_str()))
}

/// Round trip: the full-range selection `:` against any token sequence
/// selects every token, so what it prints joined by single spaces is the
/// token sequence itself rejoined by single spaces — in particular, for a
/// greedily tokenized line, the line's tokens rejoined by single spaces.
pub proof fn lemma_full_range_round_trip(c: Choice, toks: Seq<Seq<char>>)
    requires
        c.start == 0,
        c.end == isize::MAX,
        c.kind == ChoiceKind::ColonRange,
        c.flags_derived(),
        toks.len() <= isize::MAX,
    ensures
        join_fields(choice_selection(c, toks), " "@) == join_fields(toks, " "@),
{
    assert(choice_selection(c, toks) =~= toks);
}

} // verus!
