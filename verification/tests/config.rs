use text_aligner::config::parse_width;
use text_aligner::{Align, Config};

fn args_of(parts: &[&str]) -> Vec<String> {
    parts.iter().map(|p| p.to_string()).collect()
}

#[test]
fn builds_a_full_configuration() {
    let args = args_of(&["prog", "in.txt", "10", "justify", "out.txt"]);
    let config = Config::build(&args).unwrap();
    assert_eq!("in.txt", config.file_path);
    assert_eq!(10, config.len);
    assert!(matches!(config.align, Align::Justify));
    assert_eq!(Some("out.txt"), config.destination_path);
}

#[test]
fn destination_is_optional() {
    let args = args_of(&["prog", "in.txt", "80", "left"]);
    let config = Config::build(&args).unwrap();
    assert!(matches!(config.align, Align::Left));
    assert_eq!(None, config.destination_path);
}

#[test]
fn align_token_is_case_insensitive() {
    let args = args_of(&["prog", "in.txt", "10", "JUSTIFY"]);
    let config = Config::build(&args).unwrap();
    assert!(matches!(config.align, Align::Justify));

    let args = args_of(&["prog", "in.txt", "10", "Right"]);
    let config = Config::build(&args).unwrap();
    assert!(matches!(config.align, Align::Right));
}

#[test]
fn missing_file_path_is_reported() {
    let args = args_of(&["prog"]);
    let err = Config::build(&args).unwrap_err();
    assert_eq!("Didn't get a file path", err);
}

#[test]
fn missing_width_is_reported() {
    let args = args_of(&["prog", "in.txt"]);
    let err = Config::build(&args).unwrap_err();
    assert_eq!("Didn't get a string length", err);
}

#[test]
fn non_numeric_width_is_reported() {
    let args = args_of(&["prog", "in.txt", "wide", "left"]);
    let err = Config::build(&args).unwrap_err();
    assert_eq!("expected usize", err);
}

#[test]
fn missing_align_is_reported() {
    let args = args_of(&["prog", "in.txt", "10"]);
    let err = Config::build(&args).unwrap_err();
    assert_eq!("Didn't get an align option", err);
}

#[test]
fn unknown_align_is_reported() {
    let args = args_of(&["prog", "in.txt", "10", "center"]);
    let err = Config::build(&args).unwrap_err();
    assert_eq!(
        "Align option is incorrect. Expected `left`, `right`, `justify`, got: center",
        err
    );
}

#[test]
fn reads_decimal_widths() {
    assert_eq!(Some(42), parse_width("42"));
    assert_eq!(Some(7), parse_width("+7"));
    assert_eq!(Some(7), parse_width("007"));
    assert_eq!(Some(0), parse_width("0"));
    assert_eq!(None, parse_width(""));
    assert_eq!(None, parse_width("+"));
    assert_eq!(None, parse_width("1a"));
    assert_eq!(None, parse_width("-3"));
    assert_eq!(None, parse_width(" 3"));
}

#[test]
fn oversized_width_is_rejected() {
    // One digit beyond what a machine word can hold.
    assert_eq!(None, parse_width("18446744073709551616"));
    assert_eq!(Some(usize::MAX), parse_width("18446744073709551615"));
}
