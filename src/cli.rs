use vstd::prelude::*;
use crate::text::same_text;

verus! {

/// The command-line front end.
pub struct LumineCli;

/// Why a command line was not accepted.
#[derive(Debug, PartialEq, Eq)]
pub enum CliError {
    MissingCommand,
    UnknownCommand(String),
}

/// What a command line asks for.
#[derive(Debug, Clone, Copy, PartialEq, Eq, Structural)]
pub enum Command {
    Build,
    Help,
}

/// The command named by `c`, if it is one.
pub open spec fn command_of(c: Seq<char>) -> Option<Command> {
    if c == "build"@ {
        Some(Command::Build)
    } else if c == "help"@ || c == "--help"@ || c == "-h"@ {
        Some(Command::Help)
    } else {
        None
    }
}

impl CliError {
    /// The message for the error.
    pub fn message(&self) -> (r: String)
        ensures
            match self {
                CliError::MissingCommand => r@ == "no command provided"@,
                CliError::UnknownCommand(c) => r@ == "unknown command `"@ + c@ + "`"@,
            },
    {
        match self {
            CliError::MissingCommand => "no command provided".to_owned(),
            CliError::UnknownCommand(c) => {
                let mut m = "unknown command `".to_owned();
                crate::text::append_str(&mut m, c.as_str());
                crate::text::append_str(&mut m, "`");
                m
            },
        }
    }
}

impl LumineCli {
    /// Reads a command line whose first item is the program name.
    pub fn run(args: Vec<String>) -> (r: Result<Command, CliError>)
        ensures
            args@.len() < 2 ==> r == Err::<Command, CliError>(CliError::MissingCommand),
            args@.len() >= 2 ==> match command_of(args@[1]@) {
                Some(c) => r == Ok::<Command, CliError>(c),
                None => match r {
                    Err(CliError::UnknownCommand(u)) => u@ == args@[1]@,
                    _ => false,
                },
            },
    {
        if args.len() < 2 {
            return Err(CliError::MissingCommand);
        }
        let cmd = args[1].clone();
        Self::dispatch(cmd)
    }

    fn dispatch(cmd: String) -> (r: Result<Command, CliError>)
        ensures
            match command_of(cmd@) {
                Some(c) => r == Ok::<Command, CliError>(c),
                None => match r {
                    Err(CliError::UnknownCommand(u)) => u@ == cmd@,
                    _ => false,
                },
            },
    {
        if same_text(cmd.as_str(), "build") {
            Ok(Command::Build)
        } else if same_text(cmd.as_str(), "help") || same_text(cmd.as_str(), "--help")
            || same_text(cmd.as_str(), "-h") {
            Ok(Command::Help)
        } else {
            Err(CliError::UnknownCommand(cmd))
        }
    }

    /// The usage text.
    pub fn help() -> (r: &'static str)
        ensures
            r@ == "Lumine CLI\n\nUsage:\n    cargo run -- <command>\n\nAvailable commands:\n    build   Run the lightweight Lumine build pipeline\n    help    Display this help text"@,
    {
        "Lumine CLI\n\nUsage:\n    cargo run -- <command>\n\nAvailable commands:\n    build   Run the lightweight Lumine build pipeline\n    help    Display this help text"
    }
}

} // verus!
