//! Command-line configuration: which command to run and on which file.
//! Reading the real process arguments stays outside the library; this module
//! holds the decisions.

use vstd::prelude::*;
use vstd::string::*;

use crate::text::{lower_seq, str_eq, to_lower};

verus! {

#[derive(Debug, PartialEq, Eq, Structural)]
pub enum Command {
    CheckNAs,
    Info,
}

#[derive(Debug, PartialEq)]
pub enum ConfigError {
    UnknownCommand(String),
    MissingArguments(String),
    FileNotFound(String),
}

#[derive(Debug)]
pub struct Config {
    command: Command,
    filename: String,
}

/// The text a configuration error reports.
pub open spec fn config_error_message(e: ConfigError) -> Seq<char> {
    match e {
        ConfigError::UnknownCommand(cmd) => "Unknown command '"@ + cmd@
            + "'. Available: na, info"@,
        ConfigError::MissingArguments(msg) => msg@,
        ConfigError::FileNotFound(file) => "File '"@ + file@ + "' not found"@,
    }
}

impl ConfigError {
    /// Render the error as text.
    pub fn message(&self) -> (r: String)
        ensures
            r@ == config_error_message(*self),
    {
        match self {
            ConfigError::UnknownCommand(cmd) => {
                let mut r = String::from_str("Unknown command '");
                r.append(cmd.as_str());
                r.append("'. Available: na, info");
                r
            },
            ConfigError::MissingArguments(msg) => msg.clone(),
            ConfigError::FileNotFound(file) => {
                let mut r = String::from_str("File '");
                r.append(file.as_str());
                r.append("' not found");
                r
            },
        }
    }
}

impl Config {
    /// The chosen command.
    pub closed spec fn spec_command(&self) -> Command {
        self.command
    }

    /// The chosen file name.
    pub closed spec fn spec_filename(&self) -> Seq<char> {
        self.filename@
    }

    pub fn new(command: Command, filename: String) -> (r: Config)
        ensures
            r.spec_command() == command,
            r.spec_filename() == filename@,
    {
        Config { command, filename }
    }

    pub fn command(&self) -> (r: &Command)
        ensures
            *r == self.spec_command(),
    {
        &self.command
    }

    pub fn filename(&self) -> (r: &str)
        ensures
            r@ == self.spec_filename(),
    {
        self.filename.as_str()
    }
}

/// Which command a word selects, ignoring letter case: `na` checks missing
/// values, `info` computes statistics; anything else is unknown.
pub fn parse_command(command: String) -> (r: Result<Command, ConfigError>)
    ensures
        lower_seq(command@) == "na"@ ==> r == Ok::<Command, ConfigError>(Command::CheckNAs),
        lower_seq(command@) == "info"@ ==> r == Ok::<Command, ConfigError>(Command::Info),
        lower_seq(command@) != "na"@ && lower_seq(command@) != "info"@ ==> r == Err::<
            Command,
            ConfigError,
        >(ConfigError::UnknownCommand(command)),
{
    proof {
        reveal_strlit("na");
        reveal_strlit("info");
    }
    let low = to_lower(command.as_str());
    if str_eq(low.as_str(), "na") {
        proof {
            assert("na"@.len() == 2);
            assert("info"@.len() == 4);
            assert("na"@ != "info"@);
        }
        Ok(Command::CheckNAs)
    } else if str_eq(low.as_str(), "info") {
        Ok(Command::Info)
    } else {
        Err(ConfigError::UnknownCommand(command))
    }
}

} // verus!
