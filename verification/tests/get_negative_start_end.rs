//! Resolving negative bounds to absolute positions.

use chooser::choice::Choice;
use chooser::config::Config;
use chooser::escape::process_escapes;
use chooser::opt::Opt;
use chooser::parse;
use chooser::error::Error;

fn build_config(args: Vec<&str>) -> Config {
    let mut character_wise = false;
    let mut exclusive = false;
    let mut field_separator: Option<String> = None;
    let mut non_greedy = false;
    let mut one_indexed = false;
    let mut output_field_separator: Option<String> = None;
    let mut choices: Vec<Choice> = Vec::new();
    let mut i = 1;
    while i < args.len() {
        match args[i] {
            "-c" | "--character-wise" => character_wise = true,
            "-x" | "--exclusive" => exclusive = true,
            "-n" | "--non-greedy" => non_greedy = true,
            "--one-indexed" => one_indexed = true,
            "-f" | "--field-separator" => {
                i += 1;
                field_separator = Some(String::from(args[i]));
            }
            "-o" | "--output-field-separator" => {
                i += 1;
                output_field_separator = Some(process_escapes(args[i]));
            }
            other => choices.push(parse::choice(other).unwrap()),
        }
        i += 1;
    }
    let opt = Opt {
        character_wise,
        debug: false,
        exclusive,
        field_separator,
        input: None,
        non_greedy,
        one_indexed,
        output_field_separator,
        choices,
    };
    Config::new(opt).unwrap()
}

#[test]
fn positive_negative_1() {
    let config = build_config(vec!["choose", "2:-1"]);
    let slice = &[1, 2, 3, 4, 5];
    assert_eq!(
        Some((2, 4)),
        config.opt.choices[0].get_negative_start_end(slice).unwrap()
    );
}

#[test]
fn positive_negative_gt1() {
    let config = build_config(vec!["choose", "1:-3"]);
    let slice = &[1, 2, 3, 4, 5];
    assert_eq!(
        Some((1, 2)),
        config.opt.choices[0].get_negative_start_end(slice).unwrap()
    );
}

#[test]
fn negative_positive() {
    let config = build_config(vec!["choose", "-3:4"]);
    let slice = &[1, 2, 3, 4, 5];
    assert_eq!(
        Some((2, 4)),
        config.opt.choices[0].get_negative_start_end(slice).unwrap()
    );
}

#[test]
fn negative_negative() {
    let config = build_config(vec!["choose", "-3:-4"]);
    let slice = &[1, 2, 3, 4, 5];
    assert_eq!(
        Some((2, 1)),
        config.opt.choices[0].get_negative_start_end(slice).unwrap()
    );
}

#[test]
fn negative1_negative1() {
    let config = build_config(vec!["choose", "-1:-1"]);
    let slice = &[1, 2, 3, 4, 5];
    assert_eq!(
        Some((4, 4)),
        config.opt.choices[0].get_negative_start_end(slice).unwrap()
    );
}

#[test]
fn negative_nonexisting_positive() {
    let config = build_config(vec!["choose", "-3:9"]);
    let slice = &[1, 2, 3, 4, 5];
    assert_eq!(
        Some((2, 4)),
        config.opt.choices[0].get_negative_start_end(slice).unwrap()
    );
}

#[test]
fn negative_negative_on_empty() {
    let config = build_config(vec!["choose", "-3:-1"]);
    let slice = &[0u8; 0];
    assert_eq!(
        None,
        config.opt.choices[0].get_negative_start_end(slice).unwrap()
    )
}

#[test]
fn negative_positive_on_empty() {
    let config = build_config(vec!["choose", "-3:5"]);
    let slice = &[0u8; 0];
    assert_eq!(
        None,
        config.opt.choices[0].get_negative_start_end(slice).unwrap()
    )
}

#[test]
fn positive_negative_on_empty() {
    let config = build_config(vec!["choose", "2:-1"]);
    let slice = &[0u8; 0];
    assert_eq!(
        None,
        config.opt.choices[0].get_negative_start_end(slice).unwrap()
    )
}

#[test]
fn negative_positive_all() {
    let config = build_config(vec!["choose", "-5:9"]);
    let slice = &[0, 1, 2, 3];
    assert_eq!(
        Some((0, 3)),
        config.opt.choices[0].get_negative_start_end(slice).unwrap()
    );
}

#[test]
fn negative_positive_some() {
    let config = build_config(vec!["choose", "-5:2"]);
    let slice = &[0, 1, 2, 3];
    assert_eq!(
        Some((0, 2)),
        config.opt.choices[0].get_negative_start_end(slice).unwrap()
    );
}

#[test]
fn positive_negative_all() {
    let config = build_config(vec!["choose", "9:-5"]);
    let slice = &[0, 1, 2, 3];
    assert_eq!(
        Some((3, 0)),
        config.opt.choices[0].get_negative_start_end(slice).unwrap()
    );
}

#[test]
fn positive_negative_some() {
    let config = build_config(vec!["choose", "9:-2"]);
    let slice = &[0, 1, 2, 3];
    assert_eq!(
        Some((3, 2)),
        config.opt.choices[0].get_negative_start_end(slice).unwrap()
    );
}

#[test]
fn positive_negative_same() {
    let config = build_config(vec!["choose", "1:-3"]);
    let slice = &[0, 1, 2, 3];
    assert_eq!(
        Some((1, 1)),
        config.opt.choices[0].get_negative_start_end(slice).unwrap()
    );
}

#[test]
fn error_when_choice_is_isize_min() {
    let isize_min = format!("{}", isize::MIN);
    let config = build_config(vec!["choose", &isize_min]);
    let slice = &[0, 1, 2, 3];

    let err = config.opt.choices[0]
        .get_negative_start_end(slice)
        .unwrap_err();

    if let Error::Config(s) = err {
        assert!(s.contains("Minimum index value supported is isize::MIN"));
    } else {
        panic!("Expected Error::Config")
    }
}

#[test]
fn error_when_choice_start_is_isize_min() {
    let choice = format!("{}:4", isize::MIN);
    let config = build_config(vec!["choose", &choice]);
    let slice = &[0, 1, 2, 3];

    let err = config.opt.choices[0]
        .get_negative_start_end(slice)
        .unwrap_err();

    if let Error::Config(s) = err {
        assert!(s.contains("Minimum index value supported is isize::MIN"));
    } else {
        panic!("Expected Error::Config")
    }
}

#[test]
fn error_when_choice_end_is_isize_min() {
    let choice = format!("4:{}", isize::MIN);
    let config = build_config(vec!["choose", &choice]);
    let slice = &[0, 1, 2, 3];

    let err = config.opt.choices[0]
        .get_negative_start_end(slice)
        .unwrap_err();

    if let Error::Config(s) = err {
        assert!(s.contains("Minimum index value supported is isize::MIN"));
    } else {
        panic!("Expected Error::Config")
    }
}
