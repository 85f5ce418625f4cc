//! The range selections themselves: a parsed `Choice` with its derived
//! sign and order flags, and the resolution of a choice against a token
//! sequence.
//!
//! Resolution has three disjoint paths, selected by the flags that were
//! derived at construction: a forward scan for non-negative, non-reversed
//! ranges; a bounded reverse scan for reversed non-negative ranges; and a
//! fully materialized resolution for any range with a negative bound,
//! where positions counted from the end need the total length.

use vstd::math::abs;
use vstd::math::max;
use vstd::math::min;
use vstd::prelude::*;
use vstd::string::StringExecFns;

use crate::error::Error;
use crate::split::views_of;

verus! {

/// One parsed selection: a signed start, a signed end, the syntax it was
/// written in, and two flags derived once at construction.
#[derive(Debug, Clone, Copy)]
pub struct Choice {
    pub start: isize,
    pub end: isize,
    pub kind: ChoiceKind,
    pub negative_index: bool,
    pub reversed: bool,
}

/// The syntax a selection was written in, which decides whether its end
/// bound is inclusive by default.
#[derive(Debug, Clone, Copy, PartialEq, Eq, Structural)]
pub enum ChoiceKind {
    Single,
    RustExclusiveRange,
    RustInclusiveRange,
    ColonRange,
}

/// What a forward scan of `(start, end)` selects: the tokens at positions
/// `start ..= end`, truncated to what exists, and nothing at all when
/// `start` lies past the end of the sequence or past `end`.
pub open spec fn forward_selection<T>(start: int, end: int, toks: Seq<T>) -> Seq<T> {
    if start < 0 || start >= toks.len() || end < start {
        Seq::empty()
    } else {
        toks.subrange(start, min(end + 1, toks.len() as int))
    }
}

/// What a reversed non-negative range `(start, end)` with `end < start`
/// selects: exactly the reverse of the forward resolution of `(end, start)`.
pub open spec fn reverse_selection<T>(start: int, end: int, toks: Seq<T>) -> Seq<T> {
    forward_selection(end, start, toks).reverse()
}

/// The resolved positions of a choice with a negative bound against a
/// sequence of `len` tokens, counted from the end and clamped into the
/// sequence; `None` when no position of the sequence is denoted.
pub open spec fn neg_bounds(c: Choice, len: int) -> Option<(int, int)>
    recommends
        len >= 1,
{
    let sa = abs(c.start as int) as int;
    let ea = abs(c.end as int) as int;
    if c.kind == ChoiceKind::Single {
        if sa <= len {
            Some((len - sa, len - sa))
        } else {
            None
        }
    } else if c.start >= 0 {
        Some((min(c.start as int, len - 1), min(max(len - ea, 0), len - 1)))
    } else if c.end >= 0 {
        Some((min(max(len - sa, 0), len - 1), min(c.end as int, len - 1)))
    } else {
        if sa <= len || ea <= len {
            Some((min(max(len - sa, 0), len - 1), min(max(len - ea, 0), len - 1)))
        } else {
            None
        }
    }
}

/// What a choice with a negative bound selects: after resolving both
/// bounds against the now known length, an ascending run when the resolved
/// end lies after the resolved start, a descending run when the original
/// start was negative, and a single position only when the original start
/// was non-negative and still within bounds.
pub open spec fn negative_selection<T>(c: Choice, toks: Seq<T>) -> Seq<T> {
    if toks.len() == 0 {
        Seq::empty()
    } else {
        match neg_bounds(c, toks.len() as int) {
            None => Seq::empty(),
            Some((s, e)) => {
                if e > s {
                    toks.subrange(s, e + 1)
                } else if c.start < 0 {
                    toks.subrange(e, s + 1).reverse()
                } else if s == e && c.start < toks.len() {
                    seq![toks[s]]
                } else {
                    Seq::empty()
                }
            },
        }
    }
}

/// The ordered subsequence of tokens that a choice selects, dispatching on
/// the flags that were fixed at construction.
pub open spec fn choice_selection<T>(c: Choice, toks: Seq<T>) -> Seq<T> {
    if c.reversed && !c.negative_index {
        reverse_selection(c.start as int, c.end as int, toks)
    } else if c.negative_index {
        negative_selection(c, toks)
    } else {
        forward_selection(c.start as int, c.end as int, toks)
    }
}

/// When resolution fails: only a negative-index choice against a non-empty
/// sequence, with a bound whose magnitude is not representable.
pub open spec fn resolve_error(c: Choice, len: int) -> bool {
    c.negative_index && len > 0 && (c.start == isize::MIN || (c.kind != ChoiceKind::Single
        && c.end == isize::MIN))
}

/// The report given for a bound whose magnitude is not representable.
pub open spec fn min_index_msg() -> Seq<char> {
    "Minimum index value supported is isize::MIN + 1"@
}

pub(crate) fn min_index_message() -> (r: String)
    ensures
        r@ == min_index_msg(),
{
    String::from_str("Minimum index value supported is isize::MIN + 1")
}

impl Choice {
    /// The invariant that construction establishes and the bound
    /// adjustments preserve: the flags agree with the signs of the bounds,
    /// and a single index has equal bounds.
    pub open spec fn wf(self) -> bool {
        &&& self.negative_index ==> (self.start < 0 || self.end < 0)
        &&& !self.negative_index ==> self.start >= 0
        &&& self.kind == ChoiceKind::Single ==> self.start == self.end
    }

    /// A freshly constructed choice: the flags are exactly what
    /// construction derives from the signs of the bounds. The bound
    /// adjustments for exclusivity and one-indexing weaken this to
    /// `wf`, which is all that resolution needs.
    pub open spec fn flags_derived(self) -> bool {
        &&& self.negative_index == (self.start < 0 || self.end < 0)
        &&& self.reversed == (self.end < self.start && !(self.start >= 0 && self.end < 0))
        &&& self.kind == ChoiceKind::Single ==> self.start == self.end
    }

    pub fn new(start: isize, end: isize, kind: ChoiceKind) -> (r: Self)
        ensures
            r.start == start,
            r.end == end,
            r.kind == kind,
            r.negative_index == (start < 0 || end < 0),
            r.reversed == (end < start && !(start >= 0 && end < 0)),
            kind == ChoiceKind::Single && start == end ==> r.flags_derived(),
            kind != ChoiceKind::Single ==> r.flags_derived(),
            r.flags_derived() ==> r.wf(),
    {
        let negative_index = start < 0 || end < 0;
        let reversed = end < start && !(start >= 0 && end < 0);
        Choice { start, end, kind, negative_index, reversed }
    }

    pub fn is_reverse_range(&self) -> (r: bool)
        ensures
            r == self.reversed,
    {
        self.reversed
    }

    pub fn has_negative_index(&self) -> (r: bool)
        ensures
            r == self.negative_index,
    {
        self.negative_index
    }

    /// The absolute positions that this choice denotes in a sequence of
    /// `slice.len()` tokens, derived from the possibly negative bounds.
    /// An error reports a bound whose magnitude cannot be represented.
    pub fn get_negative_start_end<T>(&self, slice: &[T]) -> (r: Result<
        Option<(usize, usize)>,
        Error,
    >)
        ensures
            ({
                let len = slice@.len() as int;
                if len == 0 {
                    r matches Ok(b) && b is None
                } else if self.start == isize::MIN || (self.kind != ChoiceKind::Single && self.end
                    == isize::MIN) {
                    r matches Err(e) && e matches Error::Config(m) && m@ == min_index_msg()
                } else {
                    match neg_bounds(*self, len) {
                        Some((s, e)) => r matches Ok(b) && b matches Some(p) && p.0 == s && p.1
                            == e,
                        None => r matches Ok(b) && b is None,
                    }
                }
            }),
    {
        if slice.len() == 0 {
            return Ok(None);
        }
        let len: usize = slice.len();
        let last: usize = len - 1;

        if self.start == isize::MIN {
            return Err(Error::Config(min_index_message()));
        }
        let start_abs: usize = if self.start < 0 {
            (-self.start) as usize
        } else {
            self.start as usize
        };

        if self.kind == ChoiceKind::Single {
            if start_abs <= len {
                let idx = len - start_abs;
                Ok(Some((idx, idx)))
            } else {
                Ok(None)
            }
        } else {
            if self.end == isize::MIN {
                return Err(Error::Config(min_index_message()));
            }
            let end_abs: usize = if self.end < 0 {
                (-self.end) as usize
            } else {
                self.end as usize
            };

            if self.start >= 0 {
                let s = if (self.start as usize) < last {
                    self.start as usize
                } else {
                    last
                };
                let e0 = if end_abs < len {
                    len - end_abs
                } else {
                    0
                };
                let e = if e0 < last {
                    e0
                } else {
                    last
                };
                Ok(Some((s, e)))
            } else if self.end >= 0 {
                let s0 = if start_abs < len {
                    len - start_abs
                } else {
                    0
                };
                let s = if s0 < last {
                    s0
                } else {
                    last
                };
                let e = if (self.end as usize) < last {
                    self.end as usize
                } else {
                    last
                };
                Ok(Some((s, e)))
            } else {
                if start_abs > len && end_abs > len {
                    Ok(None)
                } else {
                    let s0 = if start_abs < len {
                        len - start_abs
                    } else {
                        0
                    };
                    let s = if s0 < last {
                        s0
                    } else {
                        last
                    };
                    let e0 = if end_abs < len {
                        len - end_abs
                    } else {
                        0
                    };
                    let e = if e0 < last {
                        e0
                    } else {
                        last
                    };
                    Ok(Some((s, e)))
                }
            }
        }
    }

    /// The ordered subsequence of tokens that this choice selects, or the
    /// error for a bound whose magnitude cannot be represented.
    pub fn resolve(&self, tokens: &Vec<String>) -> (r: Result<Vec<String>, Error>)
        requires
            self.wf(),
        ensures
            r is Err <==> resolve_error(*self, tokens@.len() as int),
            r matches Ok(v) ==> v@ == choice_selection(*self, tokens@),
            r matches Err(e) ==> e matches Error::Config(m) && m@ == min_index_msg(),
    {
        if self.is_reverse_range() && !self.has_negative_index() {
            let fwd = forward_slice(tokens, self.end, self.start);
            Ok(reversed_vec(&fwd))
        } else if self.has_negative_index() {
            self.resolve_negative(tokens)
        } else {
            Ok(forward_slice(tokens, self.start, self.end))
        }
    }

    fn resolve_negative(&self, tokens: &Vec<String>) -> (r: Result<Vec<String>, Error>)
        requires
            self.wf(),
            self.negative_index,
        ensures
            r is Err <==> resolve_error(*self, tokens@.len() as int),
            r matches Ok(v) ==> v@ == negative_selection(*self, tokens@),
            r matches Err(e) ==> e matches Error::Config(m) && m@ == min_index_msg(),
    {
        let bounds = match self.get_negative_start_end(tokens.as_slice()) {
            Ok(b) => b,
            Err(e) => {
                return Err(e);
            },
        };
        let mut out: Vec<String> = Vec::new();
        match bounds {
            None => Ok(out),
            Some((s, e)) => {
                let n = tokens.len();
                proof {
                    lemma_neg_bounds_range(*self, tokens@.len() as int);
                }
                if e > s {
                    let mut i: usize = s;
                    while i <= e
                        invariant
                            s <= i <= e + 1,
                            e < n == tokens@.len(),
                            out@ == tokens@.subrange(s as int, i as int),
                        decreases e + 1 - i,
                    {
                        out.push(tokens[i].clone());
                        proof {
                            assert(tokens@.subrange(s as int, i + 1 as int) =~= tokens@.subrange(
                                s as int,
                                i as int,
                            ).push(tokens@[i as int]));
                        }
                        i += 1;
                    }
                    Ok(out)
                } else if self.start < 0 {
                    assert(s < n);
                    let mut i: usize = s + 1;
                    while i > e
                        invariant
                            e <= i <= s + 1,
                            s < n == tokens@.len(),
                            out@ == tokens@.subrange(i as int, s + 1 as int).reverse(),
                        decreases i,
                    {
                        i -= 1;
                        out.push(tokens[i].clone());
                        proof {
                            assert(out@ =~= tokens@.subrange(i as int, s + 1 as int).reverse());
                        }
                    }
                    Ok(out)
                } else if s == e && (self.start as usize) < tokens.len() {
                    out.push(tokens[s].clone());
                    proof {
                        assert(out@ =~= seq![tokens@[s as int]]);
                    }
                    Ok(out)
                } else {
                    Ok(out)
                }
            },
        }
    }
}


/// Resolution is positional: selecting from the owned tokens and then
/// taking views is the same as selecting from the views.
pub proof fn lemma_selection_views(c: Choice, ts: Seq<String>)
    requires
        c.wf(),
    ensures
        views_of(choice_selection(c, ts)) == choice_selection(c, views_of(ts)),
{
    let vs = views_of(ts);
    assert(vs.len() == ts.len());
    if c.reversed && !c.negative_index {
        lemma_views_forward(c.end as int, c.start as int, ts);
        lemma_views_reverse(forward_selection(c.end as int, c.start as int, ts));
    } else if c.negative_index {
        if ts.len() == 0 {
            assert(views_of(choice_selection(c, ts)) =~= choice_selection(c, vs));
        } else {
            match neg_bounds(c, ts.len() as int) {
                None => {
                    assert(views_of(choice_selection(c, ts)) =~= choice_selection(c, vs));
                },
                Some((s, e)) => {
                    lemma_neg_bounds_range(c, ts.len() as int);
                    if e > s {
                        assert(views_of(ts.subrange(s, e + 1)) =~= vs.subrange(s, e + 1));
                    } else if c.start < 0 {
                        assert(views_of(ts.subrange(e, s + 1)) =~= vs.subrange(e, s + 1));
                        lemma_views_reverse(ts.subrange(e, s + 1));
                    } else if s == e && c.start < ts.len() {
                        assert(views_of(seq![ts[s]]) =~= seq![ts[s]@]);
                    } else {
                        assert(views_of(choice_selection(c, ts)) =~= choice_selection(c, vs));
                    }
                },
            }
        }
    } else {
        lemma_views_forward(c.start as int, c.end as int, ts);
    }
}

proof fn lemma_views_forward(a: int, b: int, ts: Seq<String>)
    ensures
        views_of(forward_selection(a, b, ts)) == forward_selection(a, b, views_of(ts)),
{
    if a < 0 || a >= ts.len() || b < a {
        assert(views_of(forward_selection(a, b, ts)) =~= forward_selection(a, b, views_of(ts)));
    } else {
        assert(views_of(ts.subrange(a, min(b + 1, ts.len() as int))) =~= views_of(
            ts,
        ).subrange(a, min(b + 1, ts.len() as int)));
    }
}

proof fn lemma_views_reverse(s: Seq<String>)
    ensures
        views_of(s.reverse()) == views_of(s).reverse(),
{
    assert(views_of(s.reverse()) =~= views_of(s).reverse());
}

/// The resolved positions lie inside the sequence whenever they exist.
proof fn lemma_neg_bounds_range(c: Choice, len: int)
    requires
        len >= 1,
        c.wf(),
        c.negative_index,
        neg_bounds(c, len) is Some,
    ensures
        ({
            let (s, e) = neg_bounds(c, len)->Some_0;
            0 <= s <= len - 1 && 0 <= e <= len - 1
        }),
{
}

/// The forward scan: skip `lo` tokens, then take tokens up to position
/// `hi`, stopping at the end of the sequence.
fn forward_slice(tokens: &Vec<String>, lo: isize, hi: isize) -> (r: Vec<String>)
    ensures
        r@ == forward_selection(lo as int, hi as int, tokens@),
{
    let mut out: Vec<String> = Vec::new();
    if lo < 0 {
        return out;
    }
    let len = tokens.len();
    if lo as usize >= len || hi < lo {
        return out;
    }
    let start: usize = lo as usize;
    let stop: usize = if (hi as usize) < len {
        (hi as usize) + 1
    } else {
        len
    };
    let mut i: usize = start;
    while i < stop
        invariant
            start <= i <= stop <= tokens@.len(),
            out@ == tokens@.subrange(start as int, i as int),
        decreases stop - i,
    {
        out.push(tokens[i].clone());
        proof {
            assert(tokens@.subrange(start as int, i + 1 as int) =~= tokens@.subrange(
                start as int,
                i as int,
            ).push(tokens@[i as int]));
        }
        i += 1;
    }
    proof {
        assert(out@ =~= forward_selection(lo as int, hi as int, tokens@));
    }
    out
}

/// The emission step of the bounded reverse scan: the collected tokens,
/// last first.
fn reversed_vec(v: &Vec<String>) -> (r: Vec<String>)
    ensures
        r@ == v@.reverse(),
{
    let mut out: Vec<String> = Vec::new();
    let mut i: usize = v.len();
    while i > 0
        invariant
            i <= v@.len(),
            out@ == v@.subrange(i as int, v@.len() as int).reverse(),
        decreases i,
    {
        i -= 1;
        out.push(v[i].clone());
        proof {
            assert(out@ =~= v@.subrange(i as int, v@.len() as int).reverse());
        }
    }
    proof {
        assert(v@.subrange(0, v@.len() as int) =~= v@);
    }
    out
}

/// A non-negative, non-reversed range `(start, end)` with `end >= start`
/// selects `tokens[start ..= min(end, len - 1)]` in ascending order, or
/// nothing when `start` lies past the end of the sequence.
pub proof fn lemma_forward_selection(c: Choice, toks: Seq<Seq<char>>)
    requires
        !c.negative_index,
        !c.reversed,
        c.start >= 0,
        c.end >= c.start,
    ensures
        c.start < toks.len() ==> choice_selection(c, toks) == toks.subrange(
            c.start as int,
            min(c.end + 1, toks.len() as int),
        ),
        c.start >= toks.len() ==> choice_selection(c, toks) == Seq::<Seq<char>>::empty(),
{
}

/// A reversed non-negative range selects exactly the reverse of the
/// forward resolution of its swapped bounds.
pub proof fn lemma_reverse_selection(c: Choice, toks: Seq<Seq<char>>)
    requires
        c.reversed,
        !c.negative_index,
    ensures
        choice_selection(c, toks) == forward_selection(c.end as int, c.start as int, toks).reverse(),
{
}

/// Any selection with a negative bound against an empty token sequence is
/// empty.
pub proof fn lemma_negative_empty(c: Choice, toks: Seq<Seq<char>>)
    requires
        c.negative_index,
        toks.len() == 0,
    ensures
        choice_selection(c, toks) == Seq::<Seq<char>>::empty(),
{
}

/// The selection is a function of the choice and the token sequence alone:
/// resolving the same choice against the same tokens twice selects the
/// same subsequence.
pub proof fn lemma_selection_deterministic(c: Choice, toks1: Seq<Seq<char>>, toks2: Seq<Seq<char>>)
    requires
        toks1 == toks2,
    ensures
        choice_selection(c, toks1) == choice_selection(c, toks2),
{
}

} // verus!
