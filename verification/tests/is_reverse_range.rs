//! The derived reversal flag of parsed selections.

use chooser::choice::Choice;
use chooser::config::Config;
use chooser::escape::process_escapes;
use chooser::opt::Opt;
use chooser::parse;
use chooser::writer::process_line;

fn build_config(args: Vec<&str>) -> Config {
    let mut character_wise = false;
    let mut exclusive = false;
    let mut field_separator: Option<String> = None;
    let mut non_greedy = false;
    let mut one_indexed = false;
    let mut output_field_separator: Option<String> = None;
    let mut choices: Vec<Choice> = Vec::new();
    let mut i = 1;
    while i < args.len() {
        match args[i] {
            "-c" | "--character-wise" => character_wise = true,
            "-x" | "--exclusive" => exclusive = true,
            "-n" | "--non-greedy" => non_greedy = true,
            "--one-indexed" => one_indexed = true,
            "-f" | "--field-separator" => {
                i += 1;
                field_separator = Some(String::from(args[i]));
            }
            "-o" | "--output-field-separator" => {
                i += 1;
                output_field_separator = Some(process_escapes(args[i]));
            }
            other => choices.push(parse::choice(other).unwrap()),
        }
        i += 1;
    }
    let opt = Opt {
        character_wise,
        debug: false,
        exclusive,
        field_separator,
        input: None,
        non_greedy,
        one_indexed,
        output_field_separator,
        choices,
    };
    Config::new(opt).unwrap()
}

#[test]
fn is_field_reversed() {
    let config = build_config(vec!["choose", "0"]);
    assert!(!config.opt.choices[0].is_reverse_range());
}

#[test]
fn is_field_range_no_start_reversed() {
    let config = build_config(vec!["choose", ":2"]);
    assert!(!config.opt.choices[0].is_reverse_range());
}

#[test]
fn is_field_range_no_end_reversed() {
    let config = build_config(vec!["choose", "2:"]);
    assert!(!config.opt.choices[0].is_reverse_range());
}

#[test]
fn is_field_range_no_start_or_end_reversed() {
    let config = build_config(vec!["choose", ":"]);
    assert!(!config.opt.choices[0].is_reverse_range());
}

#[test]
fn is_reversed_field_range_reversed() {
    let config = build_config(vec!["choose", "4:2"]);
    assert!(config.opt.choices[0].is_reverse_range());
}
