use lumine::cli::{CliError, Command, LumineCli};

#[test]
fn returns_error_when_missing_command() {
    let result = LumineCli::run(vec!["lumine".to_string()]);
    assert_eq!(result.unwrap_err(), CliError::MissingCommand);
}

#[test]
fn runs_build_command() {
    let args = ["lumine", "build"]
        .into_iter()
        .map(|s| s.to_string())
        .collect::<Vec<_>>();
    assert!(LumineCli::run(args).is_ok());
}

#[test]
fn build_command_is_recognised() {
    let args = vec!["lumine".to_string(), "build".to_string(), "x".to_string()];
    assert_eq!(LumineCli::run(args), Ok(Command::Build));
}

#[test]
fn help_spellings_are_recognised() {
    for h in ["help", "--help", "-h"] {
        let args = vec!["lumine".to_string(), h.to_string()];
        assert_eq!(LumineCli::run(args), Ok(Command::Help));
    }
}

#[test]
fn unknown_command_is_reported() {
    let args = vec!["lumine".to_string(), "deploy".to_string()];
    let err = LumineCli::run(args).unwrap_err();
    assert_eq!(err, CliError::UnknownCommand("deploy".to_string()));
    assert_eq!(err.message(), "unknown command `deploy`");
    assert_eq!(CliError::MissingCommand.message(), "no command provided");
}

#[test]
fn help_text_lists_commands() {
    let h = LumineCli::help();
    assert!(h.starts_with("Lumine CLI\n\nUsage:"));
    assert!(h.contains("    build   Run the lightweight Lumine build pipeline"));
    assert!(h.ends_with("help    Display this help text"));
}
