use zmqtt2prom::text::u32_to_decimal;
use zmqtt2prom::cli::{
    level_from_lowercase, parse_log_level, parse_port, parse_usize, Args, CheckedSetting, LogLevel,
    SettingError, SettingPositions,
};

fn setting_error(setting: CheckedSetting, value: &str, message: &str) -> SettingError {
    SettingError { setting, value: value.to_string(), message: message.to_string() }
}

const DEFAULTED: SettingPositions = SettingPositions { mqtt_port: None, http_port: None, log_level: None };

#[test]
fn test_parse_port_valid() {
    assert_eq!(parse_port("1883").unwrap(), 1883);
    assert_eq!(parse_port("1").unwrap(), 1);
    assert_eq!(parse_port("65535").unwrap(), 65535);
}

#[test]
fn test_parse_port_invalid() {
    assert!(parse_port("0").is_err());
    assert!(parse_port("65536").is_err());
    assert!(parse_port("abc").is_err());
    assert!(parse_port("-1").is_err());
}

#[test]
fn test_parse_log_level() {
    assert_eq!(parse_log_level("trace").unwrap(), LogLevel::Trace);
    assert_eq!(parse_log_level("DEBUG").unwrap(), LogLevel::Debug);
    assert_eq!(parse_log_level("Info").unwrap(), LogLevel::Info);
    assert_eq!(parse_log_level("warn").unwrap(), LogLevel::Warn);
    assert_eq!(parse_log_level("warning").unwrap(), LogLevel::Warn);
    assert_eq!(parse_log_level("error").unwrap(), LogLevel::Error);
    assert!(parse_log_level("invalid").is_err());
}

#[test]
fn test_default_args() {
    let args = Args::from_values(None, None, None, None, None, None, DEFAULTED).unwrap();
    assert_eq!(args.mqtt_host, "localhost");
    assert_eq!(args.mqtt_port, 1883);
    assert_eq!(args.http_port, 6565);
    assert!(args.mqtt_username.is_none());
    assert!(args.mqtt_password.is_none());
    assert_eq!(args.log_level, LogLevel::Info);
}

#[test]
fn test_custom_args() {
    let args = Args::from_values(
        Some("mqtt.example.com".to_string()),
        Some("8883".to_string()),
        Some("user".to_string()),
        Some("pass".to_string()),
        Some("9090".to_string()),
        Some("debug".to_string()),
        SettingPositions { mqtt_port: Some(4), http_port: Some(10), log_level: Some(12) },
    )
    .unwrap();
    assert_eq!(args.mqtt_host, "mqtt.example.com");
    assert_eq!(args.mqtt_port, 8883);
    assert_eq!(args.mqtt_username.as_deref(), Some("user"));
    assert_eq!(args.mqtt_password.as_deref(), Some("pass"));
    assert_eq!(args.http_port, 9090);
    assert_eq!(args.log_level, LogLevel::Debug);
}

#[test]
fn parse_port_error_messages() {
    assert_eq!(parse_port("abc").unwrap_err(), "`abc` isn't a valid port number");
    assert_eq!(parse_port("-1").unwrap_err(), "`-1` isn't a valid port number");
    assert_eq!(parse_port("").unwrap_err(), "`` isn't a valid port number");
    assert_eq!(parse_port("+").unwrap_err(), "`+` isn't a valid port number");
    assert_eq!(parse_port("0").unwrap_err(), "port not in range 1-65535");
    assert_eq!(parse_port("65536").unwrap_err(), "port not in range 1-65535");
    assert_eq!(
        parse_port("99999999999999999999999").unwrap_err(),
        "`99999999999999999999999` isn't a valid port number"
    );
}

#[test]
fn parse_port_accepts_plus_sign_and_leading_zeros() {
    assert_eq!(parse_port("+8080").unwrap(), 8080);
    assert_eq!(parse_port("0080").unwrap(), 80);
    assert!(parse_port(" 80").is_err());
    assert!(parse_port("++80").is_err());
}

#[test]
fn parse_usize_values() {
    assert_eq!(parse_usize("0"), Some(0));
    assert_eq!(parse_usize("123456"), Some(123456));
    assert_eq!(parse_usize("18446744073709551615"), Some(usize::MAX));
    assert_eq!(parse_usize("18446744073709551616"), None);
    assert_eq!(parse_usize("12a"), None);
}

#[test]
fn parse_log_level_error_message() {
    assert_eq!(
        parse_log_level("verbose").unwrap_err(),
        "Invalid log level: verbose. Valid values: trace, debug, info, warn, error"
    );
    assert_eq!(parse_log_level("WARNING").unwrap(), LogLevel::Warn);
    assert_eq!(parse_log_level("ErRoR").unwrap(), LogLevel::Error);
}

#[test]
fn level_from_lowercase_is_case_sensitive() {
    assert_eq!(level_from_lowercase("info", "INFO").unwrap(), LogLevel::Info);
    assert_eq!(
        level_from_lowercase("Info", "Info").unwrap_err(),
        "Invalid log level: Info. Valid values: trace, debug, info, warn, error"
    );
}

#[test]
fn args_report_the_first_invalid_setting() {
    let err = Args::from_values(None, Some("0".to_string()), None, None, Some("x".to_string()), None, DEFAULTED)
        .unwrap_err();
    assert_eq!(err, setting_error(CheckedSetting::MqttPort, "0", "port not in range 1-65535"));
    let err = Args::from_values(None, None, None, None, Some("x".to_string()), Some("loud".to_string()), DEFAULTED)
        .unwrap_err();
    assert_eq!(err, setting_error(CheckedSetting::HttpPort, "x", "`x` isn't a valid port number"));
    let err = Args::from_values(None, None, None, None, None, Some("loud".to_string()), DEFAULTED).unwrap_err();
    assert_eq!(
        err,
        setting_error(
            CheckedSetting::LogLevel,
            "loud",
            "Invalid log level: loud. Valid values: trace, debug, info, warn, error"
        )
    );
}

#[test]
fn args_report_command_line_errors_in_command_line_order() {
    // --http-port x --mqtt-port 0
    let given = SettingPositions { mqtt_port: Some(4), http_port: Some(2), log_level: None };
    let err = Args::from_values(None, Some("0".to_string()), None, None, Some("x".to_string()), None, given)
        .unwrap_err();
    assert_eq!(err, setting_error(CheckedSetting::HttpPort, "x", "`x` isn't a valid port number"));
    // a value given on the command line is checked before one from the environment
    let given = SettingPositions { mqtt_port: None, http_port: None, log_level: Some(2) };
    let err = Args::from_values(
        None,
        Some("0".to_string()),
        None,
        None,
        None,
        Some("loud".to_string()),
        given,
    )
    .unwrap_err();
    assert_eq!(
        err,
        setting_error(
            CheckedSetting::LogLevel,
            "loud",
            "Invalid log level: loud. Valid values: trace, debug, info, warn, error"
        )
    );
}

#[test]
fn decimal_numerals() {
    assert_eq!(u32_to_decimal(0), "0");
    assert_eq!(u32_to_decimal(7), "7");
    assert_eq!(u32_to_decimal(54321), "54321");
    assert_eq!(u32_to_decimal(u32::MAX), "4294967295");
}
