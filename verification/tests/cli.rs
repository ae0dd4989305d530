use mini_lmk::cli::Arguments;

fn parse(args: &[&str]) -> Arguments {
    Arguments::parse(&args.iter().map(|s| s.to_string()).collect())
}

#[test]
fn a_mode_must_be_given() {
    assert_eq!(parse(&[]).act_mode, None);
    assert_eq!(parse(&["--json"]).act_mode, None);
    assert_eq!(parse(&["--act"]).act_mode, Some(true));
    assert_eq!(parse(&["--observe"]).act_mode, Some(false));
    assert_eq!(parse(&["--act", "--observe"]).act_mode, Some(false));
}

#[test]
fn options() {
    let args = parse(&["--act", "--json", "--no-log"]);
    assert!(args.json_stdout && args.no_log && !args.help);
    let args = parse(&["--act"]);
    assert!(!args.json_stdout && !args.no_log && !args.help);
    assert!(args.unknown.is_empty());
}

#[test]
fn unknown_arguments_are_told_until_help_is_asked_for() {
    let args = parse(&["--foo", "--act", "", "-h", "--bar", "--json"]);
    assert_eq!(args.unknown, ["--foo", ""]);
    assert!(args.help && !args.json_stdout);
    assert!(parse(&["--help"]).help);
}
