use piwall::cli::{cli_args_from, CliArgs, CliCommand, ParseCliCommandError};
use std::str::FromStr;

#[test]
fn subcommand_names_select_commands() {
    assert_eq!(CliCommand::from_name("copy-config-to-clients"), Ok(CliCommand::CopyConfigToClients));
    assert_eq!(CliCommand::from_name("generate"), Ok(CliCommand::Generate));
    assert_eq!(CliCommand::from_name("start"), Ok(CliCommand::Start));
    assert_eq!(CliCommand::from_name("provision-client"), Ok(CliCommand::ProvisionPiWallClient));
}

#[test]
fn unknown_subcommand_is_an_error() {
    assert_eq!(CliCommand::from_name("generat"), Err(ParseCliCommandError));
    assert_eq!(CliCommand::from_name(""), Err(ParseCliCommandError));
    assert_eq!(CliCommand::from_str("Start"), Err(ParseCliCommandError));
}

#[test]
fn from_str_agrees_with_from_name() {
    assert_eq!("generate".parse::<CliCommand>(), Ok(CliCommand::Generate));
}

#[test]
fn parse_error_message() {
    assert_eq!(
        ParseCliCommandError.to_string(),
        "Missing implementation for subcommand, please file a bug report"
    );
}

#[test]
fn cli_args_carry_the_values() {
    let a = cli_args_from("generate", Some("wall.toml".to_string()), None, Some("10.0.0.2".to_string()), None);
    assert_eq!(
        a,
        Ok(CliArgs {
            command: CliCommand::Generate,
            pi_wall_meta_config_file_path: Some("wall.toml".to_string()),
            pi_wall_hostname_arg: None,
            pi_wall_ip_arg: Some("10.0.0.2".to_string()),
            rmuxinator_config_arg: None,
        })
    );
    assert_eq!(cli_args_from("bogus", None, None, None, None), Err(ParseCliCommandError));
}

#[test]
fn from_str_matches_names_exactly() {
    assert_eq!(CliCommand::from_str("provision-client"), Ok(CliCommand::ProvisionPiWallClient));
    assert_eq!(CliCommand::from_str("copy-config-to-clients"), Ok(CliCommand::CopyConfigToClients));
    assert_eq!(CliCommand::from_str("start"), Ok(CliCommand::Start));
    assert_eq!(CliCommand::from_str("Generate"), Err(ParseCliCommandError));
    assert_eq!(CliCommand::from_str("generate "), Err(ParseCliCommandError));
}
