//! Tokenizing a line: splitting on runs of whitespace or on every
//! occurrence of one character, and dropping the empty tokens that greedy
//! splitting discards.

use vstd::prelude::*;

use crate::chars::char_is_space;
use crate::chars::chars_string;
use crate::chars::is_unicode_space;

verus! {

/// The views of a vector of owned tokens.
pub open spec fn views_of(ts: Seq<String>) -> Seq<Seq<char>> {
    ts.map_values(|t: String| t@)
}

/// Splitting on every occurrence of the character `d`: consecutive
/// occurrences and occurrences at either end leave empty tokens in place.
pub open spec fn char_split(s: Seq<char>, d: char) -> Seq<Seq<char>>
    decreases s.len(),
{
    if s.len() == 0 {
        seq![Seq::empty()]
    } else {
        let prev = char_split(s.drop_last(), d);
        if s.last() == d {
            prev.push(Seq::empty())
        } else {
            prev.update(prev.len() - 1, prev.last().push(s.last()))
        }
    }
}

/// Splitting on runs of whitespace: a maximal run of whitespace characters
/// is one delimiter, so empty tokens arise only at the ends of the line.
pub open spec fn whitespace_split(s: Seq<char>) -> Seq<Seq<char>>
    decreases s.len(),
{
    if s.len() == 0 {
        seq![Seq::empty()]
    } else {
        let prev = whitespace_split(s.drop_last());
        if !is_unicode_space(s.last()) {
            prev.update(prev.len() - 1, prev.last().push(s.last()))
        } else if s.len() >= 2 && is_unicode_space(s[s.len() - 2]) {
            prev
        } else {
            prev.push(Seq::empty())
        }
    }
}

/// What greedy splitting keeps: the tokens that are not empty, in order.
pub open spec fn keep_nonempty_spec(ts: Seq<Seq<char>>) -> Seq<Seq<char>>
    decreases ts.len(),
{
    if ts.len() == 0 {
        Seq::empty()
    } else {
        let p = keep_nonempty_spec(ts.drop_last());
        if ts.last().len() > 0 {
            p.push(ts.last())
        } else {
            p
        }
    }
}

/// A split yields at least one token.
pub proof fn lemma_char_split_len(s: Seq<char>, d: char)
    ensures
        char_split(s, d).len() >= 1,
    decreases s.len(),
{
    if s.len() > 0 {
        lemma_char_split_len(s.drop_last(), d);
    }
}

/// A whitespace split yields at least one token.
pub proof fn lemma_whitespace_split_len(s: Seq<char>)
    ensures
        whitespace_split(s).len() >= 1,
    decreases s.len(),
{
    if s.len() > 0 {
        lemma_whitespace_split_len(s.drop_last());
    }
}

/// Split the line on every occurrence of `d`, keeping empty tokens.
pub fn split_on_char(line: &Vec<char>, d: char) -> (r: Vec<String>)
    ensures
        views_of(r@) == char_split(line@, d),
{
    let mut done: Vec<String> = Vec::new();
    let mut cur: Vec<char> = Vec::new();
    let n = line.len();
    let mut i: usize = 0;
    while i < n
        invariant
            i <= n == line@.len(),
            views_of(done@).push(cur@) == char_split(line@.take(i as int), d),
        decreases n - i,
    {
        let c = line[i];
        proof {
            assert(line@.take(i + 1 as int).drop_last() =~= line@.take(i as int));
            lemma_char_split_len(line@.take(i as int), d);
        }
        if c == d {
            done.push(chars_string(&cur));
            cur = Vec::new();
            proof {
                assert(views_of(done@).push(cur@) =~= char_split(line@.take(i + 1 as int), d));
            }
        } else {
            cur.push(c);
            proof {
                assert(views_of(done@).push(cur@) =~= char_split(line@.take(i + 1 as int), d));
            }
        }
        i += 1;
    }
    done.push(chars_string(&cur));
    proof {
        assert(line@.take(n as int) =~= line@);
        assert(views_of(done@) =~= char_split(line@, d));
    }
    done
}

/// Split the line on maximal runs of whitespace.
pub fn split_on_whitespace(line: &Vec<char>) -> (r: Vec<String>)
    ensures
        views_of(r@) == whitespace_split(line@),
{
    let mut done: Vec<String> = Vec::new();
    let mut cur: Vec<char> = Vec::new();
    let n = line.len();
    let mut i: usize = 0;
    let mut prev_space = false;
    while i < n
        invariant
            i <= n == line@.len(),
            prev_space == (i > 0 && is_unicode_space(line@[i - 1])),
            views_of(done@).push(cur@) == whitespace_split(line@.take(i as int)),
        decreases n - i,
    {
        let c = line[i];
        proof {
            assert(line@.take(i + 1 as int).drop_last() =~= line@.take(i as int));
            lemma_whitespace_split_len(line@.take(i as int));
        }
        if !char_is_space(c) {
            cur.push(c);
            prev_space = false;
            proof {
                assert(views_of(done@).push(cur@) =~= whitespace_split(line@.take(i + 1 as int)));
            }
        } else if prev_space {
            proof {
                assert(views_of(done@).push(cur@) =~= whitespace_split(line@.take(i + 1 as int)));
            }
        } else {
            done.push(chars_string(&cur));
            cur = Vec::new();
            prev_space = true;
            proof {
                assert(views_of(done@).push(cur@) =~= whitespace_split(line@.take(i + 1 as int)));
            }
        }
        i += 1;
    }
    done.push(chars_string(&cur));
    proof {
        assert(line@.take(n as int) =~= line@);
        assert(views_of(done@) =~= whitespace_split(line@));
    }
    done
}

/// Drop the empty tokens, as greedy splitting does.
pub fn keep_nonempty(toks: &Vec<String>) -> (r: Vec<String>)
    ensures
        views_of(r@) == keep_nonempty_spec(views_of(toks@)),
{
    let mut out: Vec<String> = Vec::new();
    let n = toks.len();
    let mut i: usize = 0;
    while i < n
        invariant
            i <= n == toks@.len(),
            views_of(out@) == keep_nonempty_spec(views_of(toks@.take(i as int))),
        decreases n - i,
    {
        proof {
            assert(views_of(toks@.take(i + 1 as int)).drop_last() =~= views_of(
                toks@.take(i as int),
            ));
            assert(views_of(toks@.take(i + 1 as int)).last() == toks@[i as int]@);
        }
        if !toks[i].as_str().is_empty() {
            out.push(toks[i].clone());
            proof {
                assert(views_of(out@) =~= keep_nonempty_spec(views_of(toks@.take(i + 1 as int))));
            }
        } else {
            proof {
                assert(views_of(out@) =~= keep_nonempty_spec(views_of(toks@.take(i + 1 as int))));
            }
        }
        i += 1;
    }
    proof {
        assert(toks@.take(n as int) =~= toks@);
    }
    out
}

} // verus!
