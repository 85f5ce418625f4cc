//! Recognizing patterns that match one literal character.

use chooser::config::regex_is_literal_char;

fn test_regex_is_literal_char_some(s: &str, c: char) {
    assert_eq!(regex_is_literal_char(s).unwrap(), c);
}

fn test_regex_is_literal_char_none(s: &str) {
    assert!(regex_is_literal_char(s).is_none());
}

#[test]
fn test_regex_is_literal_char_alpha() {
        test_regex_is_literal_char_some("a", 'a');
        test_regex_is_literal_char_some("b", 'b');
        test_regex_is_literal_char_some("y", 'y');
        test_regex_is_literal_char_some("z", 'z');
        test_regex_is_literal_char_some("A", 'A');
        test_regex_is_literal_char_some("B", 'B');
        test_regex_is_literal_char_some("Y", 'Y');
        test_regex_is_literal_char_some("Z", 'Z');

        test_regex_is_literal_char_none("ab");
        test_regex_is_literal_char_none("a|b");
        test_regex_is_literal_char_none("a.");
    }

#[test]
fn test_regex_is_literal_char_numeric() {
        test_regex_is_literal_char_some("1", '1');
        test_regex_is_literal_char_some("2", '2');
        test_regex_is_literal_char_some("3", '3');
        test_regex_is_literal_char_some("9", '9');

        test_regex_is_literal_char_none("10");
        test_regex_is_literal_char_none("1|");
        test_regex_is_literal_char_none("1.");
    }

#[test]
fn test_symbols() {
        // explicitly test the symbol mapping, as mapping wrong will lead to
        // _very_ confusing behavior
        test_regex_is_literal_char_some(" ", ' ');
        test_regex_is_literal_char_some("\\t", '\t');
        test_regex_is_literal_char_some("!", '!');
        test_regex_is_literal_char_some("@", '@');
        test_regex_is_literal_char_some("#", '#');
        test_regex_is_literal_char_some("%", '%');
        test_regex_is_literal_char_some("&", '&');
        test_regex_is_literal_char_some(",", ',');
        test_regex_is_literal_char_some(":", ':');
        test_regex_is_literal_char_some(";", ';');
        test_regex_is_literal_char_some("<", '<');
        test_regex_is_literal_char_some(">", '>');

        test_regex_is_literal_char_some("\\^" ,'^');
        test_regex_is_literal_char_some("\\$" ,'$');
        test_regex_is_literal_char_some("\\\\",'\\');
        test_regex_is_literal_char_some("\\." ,'.');
        test_regex_is_literal_char_some("\\*" ,'*');
        test_regex_is_literal_char_some("\\(" ,'(');
        test_regex_is_literal_char_some("\\)" ,')');
        test_regex_is_literal_char_some("\\{" ,'{');
        test_regex_is_literal_char_some("\\}" ,'}');
        test_regex_is_literal_char_some("\\[" ,'[');
        test_regex_is_literal_char_some("\\]" ,']');
        test_regex_is_literal_char_some("\\|" ,'|');

        test_regex_is_literal_char_none("^");
        test_regex_is_literal_char_none("$");
        test_regex_is_literal_char_none(".");
        test_regex_is_literal_char_none("(");
        test_regex_is_literal_char_none(")");
        test_regex_is_literal_char_none("[");
        test_regex_is_literal_char_none("]");
        test_regex_is_literal_char_none("{");
        test_regex_is_literal_char_none("}");
    }
