//! Escape processing for the output separator: the escape sequences
//! `\n`, `\t`, `\r`, `\\` and `\0` are replaced by the characters they
//! stand for, left to right; everything else is kept as it is.

use vstd::prelude::*;

use crate::chars::chars_string;
use crate::chars::str_chars;

verus! {

/// Whether a backslash followed by this character forms one of the
/// recognized escape sequences.
pub open spec fn spec_escapable(c: char) -> bool {
    c == 'n' || c == 't' || c == 'r' || c == '\\' || c == '0'
}

/// The character that a recognized escape sequence stands for.
pub open spec fn spec_escape_value(c: char) -> char {
    if c == 'n' {
        '\n'
    } else if c == 't' {
        '\t'
    } else if c == 'r' {
        '\r'
    } else if c == '0' {
        '\u{0}'
    } else {
        c
    }
}

/// The text with its escape sequences replaced, scanning left to right:
/// a backslash followed by an escapable character becomes that escape's
/// value, and every other character stands for itself.
pub open spec fn unescaped(s: Seq<char>) -> Seq<char>
    decreases s.len(),
{
    if s.len() == 0 {
        s
    } else if s.len() >= 2 && s[0] == '\\' && spec_escapable(s[1]) {
        seq![spec_escape_value(s[1])] + unescaped(s.skip(2))
    } else {
        seq![s[0]] + unescaped(s.skip(1))
    }
}

/// Whether a backslash before this character starts an escape sequence.
pub fn is_escapable(chr: char) -> (r: bool)
    ensures
        r == spec_escapable(chr),
{
    match chr {
        'n' | 't' | 'r' | '\\' | '0' => true,
        _ => false,
    }
}

/// The character that an escape sequence on this character stands for;
/// a character that forms no escape sequence stands for itself.
pub fn char_to_escape_sequence(chr: char) -> (r: char)
    ensures
        r == spec_escape_value(chr),
{
    match chr {
        'n' => '\n',
        't' => '\t',
        'r' => '\r',
        '\\' => '\\',
        '0' => '\u{0}',
        _ => chr,
    }
}

/// Replace every escape sequence in the input by the character it stands
/// for, scanning left to right.
pub fn process_escapes(input: &str) -> (r: String)
    ensures
        r@ == unescaped(input@),
{
    let cs = str_chars(input);
    let n = cs.len();
    let mut out: Vec<char> = Vec::new();
    let mut i: usize = 0;
    proof {
        assert(cs@.skip(0) =~= cs@);
        assert(unescaped(cs@) =~= Seq::<char>::empty() + unescaped(cs@));
    }
    while i < n
        invariant
            i <= n == cs@.len(),
            unescaped(cs@) == out@ + unescaped(cs@.skip(i as int)),
        decreases n - i,
    {
        if cs[i] == '\\' && i + 1 < n && is_escapable(cs[i + 1]) {
            out.push(char_to_escape_sequence(cs[i + 1]));
            proof {
                assert(cs@.skip(i as int).skip(2) =~= cs@.skip(i + 2));
                assert(cs@.skip(i as int)[0] == cs@[i as int]);
                assert(unescaped(cs@) =~= out@ + unescaped(cs@.skip(i + 2)));
            }
            i += 2;
        } else {
            out.push(cs[i]);
            proof {
                assert(cs@.skip(i as int).skip(1) =~= cs@.skip(i + 1));
                assert(unescaped(cs@) =~= out@ + unescaped(cs@.skip(i + 1)));
            }
            i += 1;
        }
    }
    proof {
        assert(cs@.skip(n as int) =~= Seq::<char>::empty());
        assert(out@ =~= unescaped(cs@));
    }
    chars_string(&out)
}

} // verus!
