//! Parsing one range expression: a signed bound, one of the separators
//! `:`, `..` or `..=`, and a signed bound, either bound possibly omitted;
//! or, where no separator follows the leading bound, a single signed
//! index.

use vstd::prelude::*;

use crate::chars::str_chars;
use crate::choice::Choice;
use crate::choice::ChoiceKind;
use crate::parse_error::IntErrorKind;
use crate::parse_error::ParseError;

verus! {

/// A decimal digit.
pub open spec fn is_digit(c: char) -> bool {
    '0' <= c && c <= '9'
}

/// How many digits the text begins with.
pub open spec fn digits_run(s: Seq<char>) -> int
    decreases s.len(),
{
    if s.len() > 0 && is_digit(s[0]) {
        1 + digits_run(s.skip(1))
    } else {
        0
    }
}

/// The length of the longest prefix of the shape of a bound: an optional
/// minus sign followed by digits.
pub open spec fn num_prefix_len(s: Seq<char>) -> int {
    if s.len() > 0 && s[0] == '-' {
        1 + digits_run(s.skip(1))
    } else {
        digits_run(s)
    }
}

/// Every character of the text is a digit.
pub open spec fn all_digits(s: Seq<char>) -> bool {
    forall|i: int| 0 <= i < s.len() ==> is_digit(#[trigger] s[i])
}

/// The value of a text of digits, read in the usual way.
pub open spec fn digits_val(s: Seq<char>) -> int
    decreases s.len(),
{
    if s.len() == 0 {
        0
    } else {
        digits_val(s.drop_last()) * 10 + (s.last() as int - '0' as int)
    }
}

/// The digits of an integer text, behind its optional sign.
pub open spec fn int_body(s: Seq<char>) -> Seq<char> {
    if s.len() > 0 && (s[0] == '-' || s[0] == '+') {
        s.skip(1)
    } else {
        s
    }
}

/// Whether an integer text denotes a negative value.
pub open spec fn int_negative(s: Seq<char>) -> bool {
    s.len() > 0 && s[0] == '-'
}

/// A readable integer text: an optional sign followed by one or more
/// digits and nothing else.
pub open spec fn valid_int_text(s: Seq<char>) -> bool {
    int_body(s).len() > 0 && all_digits(int_body(s))
}

/// The value that an integer text denotes.
pub open spec fn int_text_val(s: Seq<char>) -> int {
    if int_negative(s) {
        -digits_val(int_body(s))
    } else {
        digits_val(int_body(s))
    }
}

/// How a range expression decomposes, if it does: the text before the
/// separator, the range kind the separator stands for, and the text after
/// it, where both texts have the shape of a bound.
pub open spec fn choice_match(s: Seq<char>) -> Option<(Seq<char>, ChoiceKind, Seq<char>)> {
    let i = num_prefix_len(s);
    if i < s.len() && s[i] == ':' {
        let rest = s.skip(i + 1);
        if num_prefix_len(rest) == rest.len() {
            Some((s.take(i), ChoiceKind::ColonRange, rest))
        } else {
            None
        }
    } else if i + 1 < s.len() && s[i] == '.' && s[i + 1] == '.' {
        if i + 2 < s.len() && s[i + 2] == '=' {
            let rest = s.skip(i + 3);
            if num_prefix_len(rest) == rest.len() {
                Some((s.take(i), ChoiceKind::RustInclusiveRange, rest))
            } else {
                None
            }
        } else {
            let rest = s.skip(i + 2);
            if num_prefix_len(rest) == rest.len() {
                Some((s.take(i), ChoiceKind::RustExclusiveRange, rest))
            } else {
                None
            }
        }
    } else {
        None
    }
}

/// A bound text that can be read into an index: empty for the default, or
/// a readable integer within the representable range.
pub open spec fn bound_ok(s: Seq<char>) -> bool {
    s.len() == 0 || (valid_int_text(s) && isize::MIN <= int_text_val(s) <= isize::MAX)
}

/// The index a bound text denotes, with its default for an omitted bound.
pub open spec fn bound_val(s: Seq<char>, default: int) -> int {
    if s.len() == 0 {
        default
    } else {
        int_text_val(s)
    }
}

proof fn lemma_digits_val_nonneg(s: Seq<char>)
    requires
        all_digits(s),
    ensures
        digits_val(s) >= 0,
    decreases s.len(),
{
    if s.len() > 0 {
        assert(all_digits(s.drop_last()));
        lemma_digits_val_nonneg(s.drop_last());
    }
}

proof fn lemma_digits_val_prefix(s: Seq<char>, k: int)
    requires
        all_digits(s),
        0 <= k <= s.len(),
    ensures
        digits_val(s.take(k)) <= digits_val(s),
    decreases s.len() - k,
{
    if k < s.len() {
        assert(s.take(k + 1).drop_last() =~= s.take(k));
        assert(all_digits(s.take(k)));
        lemma_digits_val_nonneg(s.take(k));
        assert(digits_val(s.take(k + 1)) == digits_val(s.take(k)) * 10 + (s[k] as int
            - '0' as int));
        assert(digits_val(s.take(k)) <= digits_val(s.take(k + 1)));
        lemma_digits_val_prefix(s, k + 1);
    } else {
        assert(s.take(k) =~= s);
    }
}

proof fn lemma_digits_run_is(s: Seq<char>, k: int)
    requires
        0 <= k <= s.len(),
        forall|j: int| 0 <= j < k ==> is_digit(#[trigger] s[j]),
        k == s.len() || !is_digit(s[k]),
    ensures
        digits_run(s) == k,
    decreases k,
{
    if k == 0 {
    } else {
        lemma_digits_run_is(s.skip(1), k - 1);
    }
}

/// Read an index from the characters `from .. to` of the text, after the
/// fashion of the standard library: an optional sign, then digits, and
/// the value must be representable.
pub fn parse_isize(cs: &Vec<char>, from: usize, to: usize) -> (r: Result<isize, IntErrorKind>)
    requires
        from <= to <= cs@.len(),
    ensures
        ({
            let s = cs@.subrange(from as int, to as int);
            &&& (r is Ok <==> valid_int_text(s) && isize::MIN <= int_text_val(s) <= isize::MAX)
            &&& (r matches Ok(v) ==> v == int_text_val(s))
            &&& (r matches Err(k) ==> k == if s.len() == 0 {
                IntErrorKind::Empty
            } else if !valid_int_text(s) {
                IntErrorKind::InvalidDigit
            } else if int_negative(s) {
                IntErrorKind::NegOverflow
            } else {
                IntErrorKind::PosOverflow
            })
        }),
{
    let ghost s = cs@.subrange(from as int, to as int);
    if from == to {
        return Err(IntErrorKind::Empty);
    }
    let first = cs[from];
    let negative = first == '-';
    let body_from: usize = if first == '-' || first == '+' {
        from + 1
    } else {
        from
    };
    proof {
        assert(int_body(s) =~= cs@.subrange(body_from as int, to as int));
        assert(int_negative(s) == negative);
    }
    let ghost body = cs@.subrange(body_from as int, to as int);
    if body_from == to {
        return Err(IntErrorKind::InvalidDigit);
    }
    let mut j: usize = body_from;
    while j < to
        invariant
            body_from <= j <= to,
            forall|k: int| body_from <= k < j ==> is_digit(#[trigger] cs@[k]),
        decreases to - j,
    {
        let c = cs[j];
        if !(c >= '0' && c <= '9') {
            proof {
                assert(!is_digit(body[j - body_from]));
            }
            return Err(IntErrorKind::InvalidDigit);
        }
        j += 1;
    }
    proof {
        assert(all_digits(body));
        assert(valid_int_text(s));
    }
    // The magnitude may not exceed the representable range: the largest
    // index for a positive value, one more for a negative one.
    let limit: i128 = if negative {
        (isize::MAX as i128) + 1
    } else {
        isize::MAX as i128
    };
    let mut acc: i128 = 0;
    let mut k: usize = body_from;
    while k < to
        invariant
            body_from <= k <= to,
            all_digits(body),
            valid_int_text(s),
            int_body(s) == body,
            body == cs@.subrange(body_from as int, to as int),
            0 <= acc == digits_val(body.take(k - body_from)),
            acc <= limit,
            limit as int == if negative {
                isize::MAX as int + 1
            } else {
                isize::MAX as int
            },
            int_negative(s) == negative,
        decreases to - k,
    {
        let c = cs[k];
        proof {
            assert(body[k - body_from] == cs@[k as int]);
            assert(is_digit(body[k - body_from]));
            assert(body.take(k - body_from + 1).drop_last() =~= body.take(k - body_from));
        }
        let d: i128 = (c as u32 as i128) - ('0' as u32 as i128);
        let next: i128 = acc * 10 + d;
        proof {
            assert(next == digits_val(body.take(k - body_from + 1)));
        }
        if next > limit {
            proof {
                lemma_digits_val_prefix(body, k - body_from + 1);
                assert(body.take(to - body_from) =~= body);
            }
            if negative {
                return Err(IntErrorKind::NegOverflow);
            } else {
                return Err(IntErrorKind::PosOverflow);
            }
        }
        acc = next;
        k += 1;
    }
    proof {
        assert(body.take(to - body_from) =~= body);
    }
    if negative {
        Ok((-acc) as isize)
    } else {
        Ok(acc as isize)
    }
}

/// Parse one range expression: a bound, a range separator and a bound,
/// either bound possibly omitted; or, failing that shape, a single index.
/// An omitted start stands for the beginning of the line, an omitted end
/// for its end.
#[verifier::rlimit(100)]
pub fn choice(src: &str) -> (r: Result<Choice, ParseError>)
    ensures
        ({
            let s = src@;
            match choice_match(s) {
                Some((c1, k, c3)) => {
                    &&& (r is Ok <==> bound_ok(c1) && bound_ok(c3))
                    &&& (r matches Ok(c) ==> {
                        &&& c.start == bound_val(c1, 0)
                        &&& c.end == bound_val(c3, isize::MAX as int)
                        &&& c.kind == k
                        &&& c.flags_derived()
                        &&& c.wf()
                    })
                    &&& (r matches Err(e) ==> e is ParseIntError)
                },
                None => {
                    &&& (r is Ok <==> valid_int_text(s) && isize::MIN <= int_text_val(s)
                        <= isize::MAX)
                    &&& (r matches Ok(c) ==> {
                        &&& c.start == int_text_val(s)
                        &&& c.end == int_text_val(s)
                        &&& c.kind == ChoiceKind::Single
                        &&& c.flags_derived()
                        &&& c.wf()
                    })
                    &&& (r matches Err(e) ==> e is ParseIntError)
                },
            }
        }),
{
    let cs = str_chars(src);
    let n = cs.len();

    // The longest leading bound shape: an optional minus sign, then digits.
    let start_digits: usize = if n > 0 && cs[0] == '-' {
        1
    } else {
        0
    };
    let mut i: usize = start_digits;
    #[verifier::loop_isolation(true)]
    while i < n
        invariant
            start_digits <= i <= n == cs@.len(),
            forall|j: int| start_digits <= j < i ==> is_digit(#[trigger] cs@[j]),
        ensures
            start_digits <= i <= n,
            forall|j: int| start_digits <= j < i ==> is_digit(#[trigger] cs@[j]),
            i == n || !is_digit(cs@[i as int]),
        decreases n - i,
    {
        let c = cs[i];
        if !(c >= '0' && c <= '9') {
            break;
        }
        i += 1;
    }
    proof {
        assert(forall|j: int|
            0 <= j < i - start_digits ==> is_digit(#[trigger] cs@.skip(start_digits as int)[j]));
        lemma_digits_run_is(cs@.skip(start_digits as int), i - start_digits);
        if start_digits == 0 {
            assert(cs@.skip(0) =~= cs@);
        }
        assert(num_prefix_len(cs@) == i as int);
    }

    // The separator, if the expression has the shape of a range.
    let sep = if i < n && cs[i] == ':' {
        Some((ChoiceKind::ColonRange, i + 1))
    } else if i < n && i + 1 < n && cs[i] == '.' && cs[i + 1] == '.' {
        if i + 2 < n && cs[i + 2] == '=' {
            Some((ChoiceKind::RustInclusiveRange, i + 3))
        } else {
            Some((ChoiceKind::RustExclusiveRange, i + 2))
        }
    } else {
        None
    };

    match sep {
        Some((kind, ri)) => {
            // The trailing text must have the bound shape as well, else
            // the whole expression is read as a single index.
            let rest_digits: usize = if ri < n && cs[ri] == '-' {
                ri + 1
            } else {
                ri
            };
            let mut j: usize = rest_digits;
            let mut rest_numeric = true;
            #[verifier::loop_isolation(true)]
            while j < n
                invariant_except_break
                    rest_numeric,
                invariant
                    rest_digits <= j <= n == cs@.len(),
                    forall|k: int| rest_digits <= k < j ==> is_digit(#[trigger] cs@[k]),
                ensures
                    rest_digits <= j <= n,
                    forall|k: int| rest_digits <= k < j ==> is_digit(#[trigger] cs@[k]),
                    rest_numeric ==> j == n,
                    !rest_numeric ==> j < n && !is_digit(cs@[j as int]),
                decreases n - j,
            {
                let c = cs[j];
                if !(c >= '0' && c <= '9') {
                    rest_numeric = false;
                    break;
                }
                j += 1;
            }
            proof {
                let rest = cs@.skip(ri as int);
                if rest_numeric {
                    assert(forall|k: int|
                        0 <= k < n - rest_digits ==> is_digit(
                            #[trigger] cs@.skip(rest_digits as int)[k],
                        ));
                    lemma_digits_run_is(cs@.skip(rest_digits as int), n - rest_digits);
                } else {
                    assert(!is_digit(cs@.skip(rest_digits as int)[j - rest_digits]));
                    lemma_digits_run_is(cs@.skip(rest_digits as int), j - rest_digits);
                }
                if rest_digits > ri {
                    assert(rest.skip(1) =~= cs@.skip(rest_digits as int));
                    assert(rest[0] == '-');
                } else {
                    assert(rest =~= cs@.skip(rest_digits as int));
                }
                if rest_numeric {
                    assert(num_prefix_len(rest) == rest.len());
                } else {
                    assert(num_prefix_len(rest) < rest.len());
                }
            }
            if rest_numeric {
                proof {
                    assert(cs@.take(i as int) =~= cs@.subrange(0, i as int));
                    assert(cs@.skip(ri as int) =~= cs@.subrange(ri as int, n as int));
                }
                let start: isize = if i == 0 {
                    0
                } else {
                    match parse_isize(&cs, 0, i) {
                        Ok(v) => v,
                        Err(k) => {
                            return Err(ParseError::ParseIntError(k));
                        },
                    }
                };
                let end: isize = if ri == n {
                    isize::MAX
                } else {
                    match parse_isize(&cs, ri, n) {
                        Ok(v) => v,
                        Err(k) => {
                            return Err(ParseError::ParseIntError(k));
                        },
                    }
                };
                Ok(Choice::new(start, end, kind))
            } else {
                parse_single(&cs)
            }
        },
        None => parse_single(&cs),
    }
}

/// The output field separator as given on the command line, with its
/// escape sequences replaced.
pub fn output_field_separator(src: String) -> (r: String)
    ensures
        r@ == crate::escape::unescaped(src@),
{
    crate::escape::process_escapes(src.as_str())
}

impl core::str::FromStr for Choice {
    type Err = ParseError;

    fn from_str(s: &str) -> Result<Self, Self::Err> {
        choice(s)
    }
}

/// Read the whole text as one signed index.
fn parse_single(cs: &Vec<char>) -> (r: Result<Choice, ParseError>)
    ensures
        ({
            let s = cs@;
            &&& (r is Ok <==> valid_int_text(s) && isize::MIN <= int_text_val(s) <= isize::MAX)
            &&& (r matches Ok(c) ==> {
                &&& c.start == int_text_val(s)
                &&& c.end == int_text_val(s)
                &&& c.kind == ChoiceKind::Single
                &&& c.flags_derived()
                &&& c.wf()
            })
            &&& (r matches Err(e) ==> e is ParseIntError)
        }),
{
    proof {
        assert(cs@.subrange(0, cs@.len() as int) =~= cs@);
    }
    match parse_isize(cs, 0, cs.len()) {
        Ok(x) => Ok(Choice::new(x, x, ChoiceKind::Single)),
        Err(k) => Err(ParseError::ParseIntError(k)),
    }
}

} // verus!
