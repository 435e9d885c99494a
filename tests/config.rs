use lastfm_watcher::args::{parse_args, parse_port, ArgError, Command, RunOptions};
use lastfm_watcher::config::{parse_time_string, validate_config, ConfigError};

fn args(xs: &[&str]) -> Vec<String> {
    std::iter::once("prog").chain(xs.iter().copied()).map(|s| s.to_string()).collect()
}

fn s(x: &str) -> Option<String> {
    Some(x.to_string())
}

#[test]
fn time_strings_parse_to_seconds() {
    assert_eq!(parse_time_string("7d"), Some(7 * 86400));
    assert_eq!(parse_time_string("24h"), Some(24 * 3600));
    assert_eq!(parse_time_string("30m"), Some(1800));
    assert_eq!(parse_time_string("0m"), Some(0));
    assert_eq!(parse_time_string("106751991167d"), Some(106751991167 * 86400));
}

#[test]
fn bad_time_strings_are_rejected() {
    for bad in ["", "d", "7", "7s", "7dd", "-7d", "x7d", "7 d", "106751991168d", "99999999999999999999d"] {
        assert_eq!(parse_time_string(bad), None, "{bad}");
    }
}

#[test]
fn ports_parse_like_u16() {
    assert_eq!(parse_port("5600"), Some(5600));
    assert_eq!(parse_port("+80"), Some(80));
    assert_eq!(parse_port("65535"), Some(65535));
    assert_eq!(parse_port("65536"), None);
    assert_eq!(parse_port("+"), None);
    assert_eq!(parse_port("8o"), None);
}

#[test]
fn default_arguments() {
    assert_eq!(parse_args(&args(&[])), Ok(Command::Run(RunOptions { port: 5600, sync_window: None })));
}

#[test]
fn arguments_are_read_in_order() {
    assert_eq!(
        parse_args(&args(&["--port", "1234", "--sync", "2h"])),
        Ok(Command::Run(RunOptions { port: 1234, sync_window: Some(7200) }))
    );
    assert_eq!(
        parse_args(&args(&["--port", "1234", "--testing"])),
        Ok(Command::Run(RunOptions { port: 5699, sync_window: None }))
    );
    assert_eq!(parse_args(&args(&["--testing", "--help", "--bogus"])), Ok(Command::Help));
    assert_eq!(parse_args(&args(&["--bogus", "--help"])), Ok(Command::UnknownArgument("--bogus".to_string())));
}

#[test]
fn argument_errors() {
    assert_eq!(parse_args(&args(&["--port"])), Err(ArgError::PortMissing));
    assert_eq!(parse_args(&args(&["--port", "http"])), Err(ArgError::PortInvalid));
    assert_eq!(parse_args(&args(&["--sync"])), Err(ArgError::SyncMissing));
    assert_eq!(parse_args(&args(&["--sync", "7w"])), Err(ArgError::SyncInvalid));
}

#[test]
fn valid_config_is_accepted() {
    let c = validate_config(s("key"), s("me"), Some(20)).unwrap();
    assert_eq!((c.api_key.as_str(), c.username.as_str(), c.polling_interval), ("key", "me", 20));
    assert_eq!(validate_config(s("key"), s("me"), None).unwrap().polling_interval, 10);
    assert_eq!(validate_config(s("key"), s("me"), Some(3)).unwrap().polling_interval, 3);
}

#[test]
fn config_errors() {
    assert_eq!(validate_config(None, s("me"), None).unwrap_err(), ConfigError::MissingApiKey);
    assert_eq!(validate_config(s("key"), None, None).unwrap_err(), ConfigError::MissingUsername);
    assert_eq!(validate_config(s("key"), s("me"), Some(2)).unwrap_err(), ConfigError::PollingIntervalTooShort);
    assert_eq!(validate_config(s("key"), s("your_username"), None).unwrap_err(), ConfigError::UsernameNotSet);
    assert_eq!(validate_config(s("key"), s(""), None).unwrap_err(), ConfigError::UsernameNotSet);
    assert_eq!(validate_config(s("your-api-key"), s("me"), None).unwrap_err(), ConfigError::ApiKeyNotSet);
    assert_eq!(validate_config(s(""), s("me"), None).unwrap_err(), ConfigError::ApiKeyNotSet);
}
