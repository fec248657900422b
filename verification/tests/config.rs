use pubsub_supervisor::pub_sub::{Config, ConfigError};

#[test]
fn validate_hands_the_configuration_back() {
    let config = Config {
        server: "localhost:4222".to_string(),
        user: "operator".to_string(),
        pass: "SECRET-REDACTED".to_string(),
    };
    assert_eq!(Config::validate(config.clone()), Ok(config));
}

#[test]
fn validate_accepts_an_empty_server() {
    let config = Config { server: String::new(), user: String::new(), pass: String::new() };
    assert_eq!(Config::validate(config.clone()), Ok(config));
}

#[test]
fn config_errors_describe_themselves() {
    assert_eq!(
        ConfigError::Io("no such file".to_string()).describe(),
        "'no such file' is not an active client"
    );
    assert_eq!(
        ConfigError::Config("server is missing".to_string()).describe(),
        "Config error: server is missing"
    );
    assert_eq!(
        ConfigError::Parse("expected value at line 1".to_string()).describe(),
        "Parse error: expected value at line 1"
    );
}
