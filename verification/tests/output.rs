use xlsplice::cli::json_requested;
use xlsplice::envelope::{JsonStyle, SCHEMA_VERSION};
use xlsplice::error::Error;
use xlsplice::out::Verbosity;
use xlsplice::render::{OutputMode, TextStyle, diagnostic, terminated};

#[test]
fn a_terminal_gets_a_table_and_a_pipe_gets_tab_separated_lines() {
    assert_eq!(TextStyle::for_terminal(true), TextStyle::Table);
    assert_eq!(TextStyle::for_terminal(false), TextStyle::Tsv);
}

#[test]
fn json_is_asked_for_and_the_terminal_decides_the_style_within_it() {
    assert_eq!(OutputMode::new(true, true), OutputMode::Json(JsonStyle::Pretty));
    assert_eq!(OutputMode::new(true, false), OutputMode::Json(JsonStyle::Compact));
    assert_eq!(OutputMode::new(false, true), OutputMode::Text(TextStyle::Table));
    assert_eq!(OutputMode::new(false, false), OutputMode::Text(TextStyle::Tsv));
}

#[test]
fn json_is_pretty_on_a_terminal_and_compact_when_piped() {
    assert_eq!(JsonStyle::for_terminal(true), JsonStyle::Pretty);
    assert_eq!(JsonStyle::for_terminal(false), JsonStyle::Compact);
    assert_eq!(SCHEMA_VERSION, 1);
}

#[test]
fn a_failure_says_error_and_its_message_on_a_line_of_its_own() {
    assert_eq!(diagnostic(&Error::usage("no such verb")), "error: no such verb\n");
}

#[test]
fn nothing_to_say_is_said_with_nothing() {
    assert_eq!(terminated(""), "");
    assert_eq!(terminated("a"), "a\n");
}

#[test]
fn only_verbose_is_loud() {
    assert_eq!(Verbosity::asked_for(true), Verbosity::Verbose);
    assert_eq!(Verbosity::asked_for(false), Verbosity::Quiet);
}

fn args(list: &[&str]) -> Vec<String> {
    list.iter().map(|s| s.to_string()).collect()
}

#[test]
fn json_is_requested_by_the_flag_before_any_double_dash() {
    assert!(json_requested(&args(&["xlsplice", "sheets", "--json", "a.xlsx"])));
    assert!(json_requested(&args(&["xlsplice", "--json=yes"])));
    assert!(!json_requested(&args(&["xlsplice", "sheets", "--", "--json"])));
    assert!(!json_requested(&args(&["--json"])), "the program's own name is not a flag");
    assert!(!json_requested(&args(&["xlsplice", "--jsonish"])));
    assert!(!json_requested(&args(&[])));
}
