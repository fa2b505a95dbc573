use smartconf::cli::{handle_cla, parse_cla, text_eq, CliAction, CliError, Config};
use smartconf::render::Format;

fn args(list: &[&str]) -> Vec<String> {
    list.iter().map(|s| s.to_string()).collect()
}

#[test]
fn defaults() {
    let c = parse_cla(&args(&["in.conf"])).unwrap();
    assert_eq!(c.input_file_name, Some("in.conf".to_string()));
    assert_eq!(c.format, Format::Vim);
    assert_eq!(c.variable_name, "config");
    assert!(!c.help);
    assert_eq!((c.starting_line_number, c.starting_column_number), (1, 1));
    assert_eq!(handle_cla(&c), CliAction::Run);
}

#[test]
fn long_options_with_values() {
    let c = parse_cla(&args(&["--format", "json", "in.conf", "--variable-name", "settings"])).unwrap();
    assert_eq!(c.format, Format::Json);
    assert_eq!(c.variable_name, "settings");
    assert_eq!(c.input_file_name, Some("in.conf".to_string()));
}

#[test]
fn short_options_with_values() {
    let c = parse_cla(&args(&["-f", "json", "-N", "x", "a.conf", "b.conf"])).unwrap();
    assert_eq!(c.format, Format::Json);
    assert_eq!(c.variable_name, "x");
    assert_eq!(c.input_file_name, Some("b.conf".to_string()));
}

#[test]
fn grouped_short_options() {
    let c = parse_cla(&args(&["-hN", "name"])).unwrap();
    assert!(c.help);
    assert_eq!(c.variable_name, "name");
    assert_eq!(handle_cla(&c), CliAction::ShowHelp);
}

#[test]
fn help_long_option() {
    let c = parse_cla(&args(&["--help"])).unwrap();
    assert!(c.help);
    assert_eq!(handle_cla(&c), CliAction::ShowHelp);
}

#[test]
fn option_value_may_start_with_dash() {
    let c = parse_cla(&args(&["-N", "-x", "f"])).unwrap();
    assert_eq!(c.variable_name, "-x");
}

#[test]
fn missing_file_is_reported() {
    let c = parse_cla(&args(&["-f", "vim"])).unwrap();
    assert_eq!(c.input_file_name, None);
    assert_eq!(handle_cla(&c), CliAction::MissingFile);
}

#[test]
fn unknown_options_are_errors() {
    assert!(matches!(parse_cla(&args(&["-x"])), Err(CliError::UnknownShortOption('x'))));
    assert!(matches!(parse_cla(&args(&["--colour"])), Err(CliError::UnknownLongOption(s)) if s == "colour"));
    assert!(matches!(parse_cla(&args(&["-f", "yaml"])), Err(CliError::UnknownFormat(s)) if s == "yaml"));
    assert!(matches!(parse_cla(&args(&[""])), Err(CliError::EmptyArgument)));
}

#[test]
fn dangling_option_is_dropped() {
    let c = parse_cla(&args(&["f.conf", "-f"])).unwrap();
    assert_eq!(c.format, Format::Vim);
    assert_eq!(c.input_file_name, Some("f.conf".to_string()));
}

#[test]
fn no_arguments_give_defaults() {
    let c = parse_cla(&Vec::new()).unwrap();
    let d = Config::new();
    assert_eq!(c.input_file_name, d.input_file_name);
    assert_eq!(c.variable_name, d.variable_name);
}

#[test]
fn text_equality() {
    assert!(text_eq("abc", "abc"));
    assert!(!text_eq("abc", "abd"));
    assert!(!text_eq("abc", "ab"));
}
