use sync_branch_deps::cli::{output_choice, parse, Command, Invocation, Parsed, USAGE};

fn args(a: &[&str]) -> Vec<String> {
    a.iter().map(|s| s.to_string()).collect()
}

#[test]
fn bare_is_usage_error() {
    assert!(matches!(parse(&[]), Parsed::Usage(_)));
}

#[test]
fn help_flag() {
    assert_eq!(parse(&args(&["--help"])), Parsed::Help);
    assert_eq!(parse(&args(&["-h"])), Parsed::Help);
}

#[test]
fn sync_and_flags() {
    assert_eq!(
        parse(&args(&["sync"])),
        Parsed::Run(Invocation {
            command: Command::Sync { dry_run: false },
            output: None
        })
    );
    assert_eq!(
        parse(&args(&["sync", "--dry-run", "--output", "json"])),
        Parsed::Run(Invocation {
            command: Command::Sync { dry_run: true },
            output: Some("json".into())
        })
    );
    assert_eq!(
        parse(&args(&["sync", "--output=quiet"])),
        Parsed::Run(Invocation {
            command: Command::Sync { dry_run: false },
            output: Some("quiet".into())
        })
    );
}

#[test]
fn verify_takes_no_dry_run() {
    assert_eq!(
        parse(&args(&["verify"])),
        Parsed::Run(Invocation {
            command: Command::Verify,
            output: None
        })
    );
    assert!(matches!(
        parse(&args(&["verify", "--dry-run"])),
        Parsed::Usage(_)
    ));
}

#[test]
fn unknown_subcommand_and_arg() {
    assert!(matches!(parse(&args(&["nope"])), Parsed::Usage(_)));
    assert!(matches!(
        parse(&args(&["sync", "--what"])),
        Parsed::Usage(_)
    ));
}

#[test]
fn output_without_value_is_usage_error() {
    assert!(matches!(parse(&args(&["sync", "--output"])), Parsed::Usage(_)));
}

#[test]
fn help_wins_anywhere_in_the_arguments() {
    assert_eq!(parse(&args(&["sync", "--help"])), Parsed::Help);
    assert_eq!(parse(&args(&["verify", "-h"])), Parsed::Help);
}

#[test]
fn verify_accepts_an_output_choice() {
    assert_eq!(
        parse(&args(&["verify", "--output", "github"])),
        Parsed::Run(Invocation {
            command: Command::Verify,
            output: Some("github".into())
        })
    );
}

#[test]
fn usage_text_names_both_subcommands() {
    assert!(USAGE.contains("sync"));
    assert!(USAGE.contains("verify"));
}

#[test]
fn output_flag_wins_over_environment() {
    assert_eq!(output_choice(Some("json".into()), Some("quiet".into())).as_deref(), Some("json"));
    assert_eq!(output_choice(None, Some("quiet".into())).as_deref(), Some("quiet"));
    assert_eq!(output_choice(None, None), None);
}
