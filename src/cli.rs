//! Subcommands of the command-line tool and the arguments they take.
use vstd::prelude::*;
use vstd::string::*;

verus! {

/// The subcommands of the tool.
#[derive(Debug, PartialEq, Eq, Structural, Clone, Copy)]
pub enum CliCommand {
    CopyConfigToClients,
    Generate,
    ProvisionPiWallClient,
    Start,
}

/// A subcommand name that has no `CliCommand`.
#[derive(Debug, PartialEq, Eq, Structural, Clone, Copy)]
pub struct ParseCliCommandError;

/// The subcommand that each name on the command line selects.
pub open spec fn command_named(s: Seq<char>) -> Option<CliCommand> {
    if s == "copy-config-to-clients"@ {
        Some(CliCommand::CopyConfigToClients)
    } else if s == "generate"@ {
        Some(CliCommand::Generate)
    } else if s == "start"@ {
        Some(CliCommand::Start)
    } else if s == "provision-client"@ {
        Some(CliCommand::ProvisionPiWallClient)
    } else {
        None
    }
}

impl ParseCliCommandError {
    /// The message shown for an unknown subcommand.
    pub fn to_string(&self) -> (r: String)
        ensures
            r@ == "Missing implementation for subcommand, please file a bug report"@,
    {
        String::from_str("Missing implementation for subcommand, please file a bug report")
    }
}

impl CliCommand {
    /// Selects the subcommand by its name.
    pub fn from_name(s: &str) -> (r: Result<CliCommand, ParseCliCommandError>)
        ensures
            match command_named(s@) {
                Some(c) => r == Ok::<CliCommand, ParseCliCommandError>(c),
                None => r == Err::<CliCommand, ParseCliCommandError>(ParseCliCommandError),
            },
    {
        let name = s.to_string();
        if name == String::from_str("copy-config-to-clients") {
            Ok(CliCommand::CopyConfigToClients)
        } else if name == String::from_str("generate") {
            Ok(CliCommand::Generate)
        } else if name == String::from_str("start") {
            Ok(CliCommand::Start)
        } else if name == String::from_str("provision-client") {
            Ok(CliCommand::ProvisionPiWallClient)
        } else {
            Err(ParseCliCommandError)
        }
    }
}

impl std::str::FromStr for CliCommand {
    type Err = ParseCliCommandError;

    /// Selects the subcommand by its exact name, as `from_name` does.
    fn from_str(s: &str) -> (r: Result<CliCommand, ParseCliCommandError>)
        ensures
            match command_named(s@) {
                Some(c) => r == Ok::<CliCommand, ParseCliCommandError>(c),
                None => r == Err::<CliCommand, ParseCliCommandError>(ParseCliCommandError),
            },
    {
        CliCommand::from_name(s)
    }
}

/// The parsed command line: the subcommand and the values given for it.
#[derive(Debug, PartialEq, Eq)]
pub struct CliArgs {
    pub command: CliCommand,
    pub pi_wall_meta_config_file_path: Option<String>,
    pub pi_wall_hostname_arg: Option<String>,
    pub pi_wall_ip_arg: Option<String>,
    pub rmuxinator_config_arg: Option<String>,
}

/// Builds the parsed command line from the subcommand's name and the values
/// that came with it; fails where the name selects no subcommand.
pub fn cli_args_from(
    command_name: &str,
    pi_wall_meta_config_file_path: Option<String>,
    pi_wall_hostname_arg: Option<String>,
    pi_wall_ip_arg: Option<String>,
    rmuxinator_config_arg: Option<String>,
) -> (r: Result<CliArgs, ParseCliCommandError>)
    ensures
        match command_named(command_name@) {
            Some(c) => r is Ok && ({
                let a = r->Ok_0;
                &&& a.command == c
                &&& a.pi_wall_meta_config_file_path == pi_wall_meta_config_file_path
                &&& a.pi_wall_hostname_arg == pi_wall_hostname_arg
                &&& a.pi_wall_ip_arg == pi_wall_ip_arg
                &&& a.rmuxinator_config_arg == rmuxinator_config_arg
            }),
            None => r == Err::<CliArgs, ParseCliCommandError>(ParseCliCommandError),
        },
{
    match CliCommand::from_name(command_name) {
        Ok(command) => Ok(
            CliArgs {
                command,
                pi_wall_meta_config_file_path,
                pi_wall_hostname_arg,
                pi_wall_ip_arg,
                rmuxinator_config_arg,
            },
        ),
        Err(e) => Err(e),
    }
}

} // verus!
