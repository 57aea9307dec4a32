use stargazer::catalog::CrudError;
use stargazer::config::{config_candidates, format_of_extension, ConfigError, ConfigFormat, Twitter, AMQP};
use stargazer::payload::parse_u64;
use stargazer::runner::{BililiveEntry, DebugEntry};

#[test]
fn parse_matches_std() {
    let cases = [
        "0", "7", "+7", "12345", "007", "", "+", "-1", "-0", "1 ", " 1", "12a", "18446744073709551615",
        "18446744073709551616", "99999999999999999999", "+18446744073709551615", "٣",
    ];
    for s in cases {
        assert_eq!(parse_u64(s), s.parse::<u64>().ok(), "input {:?}", s);
    }
    assert_eq!(parse_u64("18446744073709551615"), Some(u64::MAX));
    assert_eq!(parse_u64("+42"), Some(42));
}

#[test]
fn entries_read_their_payload() {
    assert_eq!(DebugEntry::from_str_e("12"), Ok(DebugEntry { id: 12 }));
    assert_eq!(BililiveEntry::from_str_e("+3"), Ok(BililiveEntry { uid: 3 }));
    let err = BililiveEntry::from_str_e("abc").unwrap_err();
    assert_eq!(err, CrudError::InvalidValue { value: "abc".to_string() });
    assert_eq!(err.status_code(), 400);
    assert_eq!(DebugEntry::from_str_e(""), Err(CrudError::InvalidValue { value: String::new() }));
}

#[test]
fn tagged_amqp_section() {
    assert_eq!(AMQP::from_tagged(Some(false), None, None), Ok(AMQP::Disabled));
    assert_eq!(
        AMQP::from_tagged(Some(true), Some("amqp://h".to_string()), Some("ex".to_string())),
        Ok(AMQP::Enabled { uri: "amqp://h".to_string(), exchange: "ex".to_string() })
    );
    assert_eq!(AMQP::from_tagged(None, None, None), Err(ConfigError::MissingField("enabled".to_string())));
    assert_eq!(AMQP::from_tagged(Some(true), None, None), Err(ConfigError::MissingField("uri".to_string())));
    assert_eq!(
        AMQP::from_tagged(Some(true), Some("u".to_string()), None),
        Err(ConfigError::MissingField("exchange".to_string()))
    );
    assert!(AMQP::default().enabled());
    assert!(!AMQP::Disabled.enabled());
}

#[test]
fn tagged_twitter_section() {
    assert_eq!(Twitter::from_tagged(Some(false), None), Ok(Twitter::Disabled));
    assert_eq!(Twitter::from_tagged(Some(true), Some("t".to_string())), Ok(Twitter::Enabled { token: "t".to_string() }));
    assert_eq!(Twitter::from_tagged(Some(true), None), Err(ConfigError::MissingField("token".to_string())));
    assert_eq!(Twitter::from_tagged(None, None), Err(ConfigError::MissingField("enabled".to_string())));
    assert!(!Twitter::default().enabled());
}

#[test]
fn config_file_candidates() {
    assert_eq!(format_of_extension("toml"), Some(ConfigFormat::Toml));
    assert_eq!(format_of_extension("json"), Some(ConfigFormat::Json));
    assert_eq!(format_of_extension("yaml"), None);
    assert_eq!(
        config_candidates("/etc/stargazer/config", None, false),
        vec![
            ("/etc/stargazer/config.toml".to_string(), ConfigFormat::Toml),
            ("/etc/stargazer/config.json".to_string(), ConfigFormat::Json),
        ]
    );
    assert_eq!(
        config_candidates("a/config.json", Some("json"), false),
        vec![
            ("a/config.json".to_string(), ConfigFormat::Json),
            ("a/config.json.toml".to_string(), ConfigFormat::Toml),
            ("a/config.json.json".to_string(), ConfigFormat::Json),
        ]
    );
    assert_eq!(config_candidates("dir", None, true), vec![]);
    assert_eq!(config_candidates("dir.toml", Some("toml"), true), vec![("dir.toml".to_string(), ConfigFormat::Toml)]);
}
