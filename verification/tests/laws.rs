//! The library's general properties exercised on concrete values, and
//! the error cases of parsing and configuration.

use chooser::choice::Choice;
use chooser::config::Config;
use chooser::error::Error;
use chooser::escape::process_escapes;
use chooser::opt::Opt;
use chooser::parse;
use chooser::parse_error::IntErrorKind;
use chooser::parse_error::ParseError;
use chooser::writer::process_line;

fn build_config(args: Vec<&str>) -> Config {
    let mut character_wise = false;
    let mut exclusive = false;
    let mut field_separator: Option<String> = None;
    let mut non_greedy = false;
    let mut one_indexed = false;
    let mut output_field_separator: Option<String> = None;
    let mut choices: Vec<Choice> = Vec::new();
    let mut i = 1;
    while i < args.len() {
        match args[i] {
            "-c" | "--character-wise" => character_wise = true,
            "-x" | "--exclusive" => exclusive = true,
            "-n" | "--non-greedy" => non_greedy = true,
            "--one-indexed" => one_indexed = true,
            "-f" | "--field-separator" => {
                i += 1;
                field_separator = Some(String::from(args[i]));
            }
            "-o" | "--output-field-separator" => {
                i += 1;
                output_field_separator = Some(process_escapes(args[i]));
            }
            other => choices.push(parse::choice(other).unwrap()),
        }
        i += 1;
    }
    let opt = Opt {
        character_wise,
        debug: false,
        exclusive,
        field_separator,
        input: None,
        non_greedy,
        one_indexed,
        output_field_separator,
        choices,
    };
    Config::new(opt).unwrap()
}

/// Resolving the same choice against the same tokens twice yields
/// identical output.
#[test]
fn resolving_twice_is_identical() {
    let config = build_config(vec!["choose", "1:-2"]);
    let tokens = config.tokenize("one two three four five");
    let first = config.opt.choices[0].resolve(&tokens).unwrap();
    let second = config.opt.choices[0].resolve(&tokens).unwrap();
    assert_eq!(first, second);
}

/// A full-range selection joined by single spaces reproduces the greedily
/// tokenized line rejoined by single spaces.
#[test]
fn full_range_round_trips_the_line() {
    let config = build_config(vec!["choose", ":"]);
    let result = process_line(&config, "  one  two\tthree   ").unwrap();
    assert_eq!(String::from("one two three"), result);
}

/// A reversed non-negative range prints the reverse of its forward twin.
#[test]
fn reversed_range_is_reverse_of_forward() {
    let forward = build_config(vec!["choose", "1:3"]);
    let reversed = build_config(vec!["choose", "3:1"]);
    let line = "a b c d e";
    let fwd = forward.tokenize(line);
    let mut fwd_sel = forward.opt.choices[0].resolve(&fwd).unwrap();
    fwd_sel.reverse();
    let rev_sel = reversed.opt.choices[0].resolve(&fwd).unwrap();
    assert_eq!(fwd_sel, rev_sel);
}

/// A negative-index selection against an empty line selects nothing.
#[test]
fn negative_selection_on_empty_line_is_empty() {
    let config = build_config(vec!["choose", "-2:-1"]);
    let tokens = config.tokenize("");
    let sel = config.opt.choices[0].resolve(&tokens).unwrap();
    assert!(sel.is_empty());
}

/// A forward range past the end of the line is truncated to what exists.
#[test]
fn forward_range_truncates_to_line() {
    let config = build_config(vec!["choose", "1:9"]);
    assert_eq!(String::from("b c"), process_line(&config, "a b c").unwrap());
}

#[test]
fn parse_empty_is_empty_error() {
    match parse::choice("") {
        Err(ParseError::ParseIntError(k)) => assert_eq!(k, IntErrorKind::Empty),
        _ => panic!("expected an empty-input error"),
    }
}

#[test]
fn parse_letters_is_invalid_digit_error() {
    match parse::choice("x7") {
        Err(ParseError::ParseIntError(k)) => assert_eq!(k, IntErrorKind::InvalidDigit),
        _ => panic!("expected an invalid-digit error"),
    }
}

#[test]
fn parse_huge_is_positive_overflow_error() {
    match parse::choice("99999999999999999999") {
        Err(ParseError::ParseIntError(k)) => assert_eq!(k, IntErrorKind::PosOverflow),
        _ => panic!("expected a positive-overflow error"),
    }
}

#[test]
fn parse_huge_negative_is_negative_overflow_error() {
    match parse::choice("-99999999999999999999") {
        Err(ParseError::ParseIntError(k)) => assert_eq!(k, IntErrorKind::NegOverflow),
        _ => panic!("expected a negative-overflow error"),
    }
}

#[test]
fn parse_accepts_the_smallest_index() {
    let smallest = format!("{}", isize::MIN);
    let c = parse::choice(&smallest).unwrap();
    assert_eq!(c.start, isize::MIN);
    assert_eq!(c.end, isize::MIN);
}

#[test]
fn parse_accepts_a_leading_plus_sign() {
    let c = parse::choice("+5").unwrap();
    assert_eq!((c.start, c.end), (5, 5));
}

/// Exclusive rewriting of an end bound that already holds the smallest
/// representable value is reported at startup.
#[test]
fn exclusive_adjustment_of_smallest_index_is_config_error() {
    let spec_text = format!("3..{}", isize::MIN);
    let choices = vec![parse::choice(&spec_text).unwrap()];
    let opt = Opt {
        character_wise: false,
        debug: false,
        exclusive: false,
        field_separator: None,
        input: None,
        non_greedy: false,
        one_indexed: false,
        output_field_separator: None,
        choices,
    };
    match Config::new(opt) {
        Err(Error::Config(msg)) => {
            assert!(msg.contains("Minimum index value supported is isize::MIN"))
        }
        _ => panic!("expected a configuration error"),
    }
}

/// Resolving a range whose bound holds the smallest representable value
/// against a non-empty line is reported as a configuration error.
#[test]
fn resolving_smallest_index_is_config_error() {
    let spec_text = format!("{}:", isize::MIN);
    let config = build_config(vec!["choose", &spec_text]);
    match process_line(&config, "a b") {
        Err(Error::Config(msg)) => {
            assert!(msg.contains("Minimum index value supported is isize::MIN"))
        }
        _ => panic!("expected a configuration error"),
    }
}

/// An invalid field-separator pattern is rejected when the configuration
/// is built.
#[test]
fn unbalanced_pattern_is_config_error() {
    let opt = Opt {
        character_wise: false,
        debug: false,
        exclusive: false,
        field_separator: Some(String::from("[")),
        input: None,
        non_greedy: false,
        one_indexed: false,
        output_field_separator: None,
        choices: vec![parse::choice("0").unwrap()],
    };
    match Config::new(opt) {
        Err(Error::Config(msg)) => assert!(!msg.is_empty()),
        _ => panic!("expected a configuration error"),
    }
}

/// A zero-length pattern splits between every pair of characters.
#[test]
fn empty_pattern_splits_between_characters() {
    let config = build_config(vec!["choose", "0:2", "-f", ""]);
    assert_eq!(String::from("a b"), process_line(&config, "ab").unwrap());
}

/// The output separator accepts escape sequences.
#[test]
fn escaped_tab_output_separator() {
    let config = build_config(vec!["choose", "0:1", "-o", r"\t"]);
    assert_eq!(String::from("a\tb"), process_line(&config, "a b").unwrap());
}

/// Escape processing touches only the recognized escapes.
#[test]
fn process_escapes_keeps_unknown_sequences() {
    assert_eq!(String::from(r"a\qb"), process_escapes(r"a\qb"));
    assert_eq!(String::from("plain"), process_escapes("plain"));
    assert_eq!(String::from(""), process_escapes(""));
}

/// Several escapes in one separator are all processed.
#[test]
fn process_escapes_handles_several_escapes() {
    assert_eq!(String::from("a\tb\nc"), process_escapes(r"a\tb\nc"));
}

/// A choice can be parsed through the standard `FromStr` trait.
#[test]
fn choice_parses_through_from_str() {
    let c: Choice = "2:5".parse().unwrap();
    assert_eq!((c.start, c.end), (2, 5));
}
